//! Profile documents: keyed tables of tables, and the profiles they declare.

use vstd::prelude::*;

use crate::profile::{lemma_profile_views_push, profile_views, texts, HardwareID, HardwareIDView, Profile, ProfileView};
use crate::text::first_index_of;
use crate::tokens::{push_tokens, split_tokens, tokens};

verus! {

/// A value of a profile document.
#[derive(Debug)]
pub enum ConfigValue {
    Text(String),
    Integer(i64),
    Boolean(bool),
    Table(Vec<(String, ConfigValue)>),
    /// An array of texts.
    TextList(Vec<String>),
    /// Any other kind of value (other arrays, floats, dates).
    Other,
}

/// A value of a profile document with its texts as character sequences;
/// tables are not looked into.
pub enum FieldView {
    Text(Seq<char>),
    Integer(int),
    Boolean(bool),
    TextList(Seq<Seq<char>>),
    Table,
    Other,
}

pub open spec fn field_view(v: ConfigValue) -> FieldView {
    match v {
        ConfigValue::Text(s) => FieldView::Text(s@),
        ConfigValue::Integer(i) => FieldView::Integer(i as int),
        ConfigValue::Boolean(b) => FieldView::Boolean(b),
        ConfigValue::Table(_) => FieldView::Table,
        ConfigValue::TextList(v) => FieldView::TextList(texts(v@)),
        ConfigValue::Other => FieldView::Other,
    }
}

/// The keys and values of a table, as texts and field views.
pub open spec fn table_view(t: Seq<(String, ConfigValue)>) -> Seq<(Seq<char>, FieldView)> {
    t.map_values(|e: (String, ConfigValue)| (e.0@, field_view(e.1)))
}

/// Index of the entry of `t` under `key`.
pub open spec fn key_index(t: Seq<(String, ConfigValue)>, key: Seq<char>) -> Option<int>
    decreases t.len(),
{
    if t.len() == 0 {
        None
    } else if t.last().0@ == key && key_index(t.drop_last(), key) is None {
        Some(t.len() - 1)
    } else {
        key_index(t.drop_last(), key)
    }
}

/// The value under `key` in table `t`.
pub open spec fn lookup(t: Seq<(String, ConfigValue)>, key: Seq<char>) -> Option<ConfigValue> {
    match key_index(t, key) {
        Some(i) => Some(t[i].1),
        None => None,
    }
}

/// The value under `key` in `node`, or else in `parent`: a nested table
/// takes from its parent what it does not set itself.
pub open spec fn field(
    node: Seq<(String, ConfigValue)>,
    parent: Option<Seq<(String, ConfigValue)>>,
    key: Seq<char>,
) -> Option<ConfigValue> {
    match lookup(node, key) {
        Some(v) => Some(v),
        None => match parent {
            Some(p) => lookup(p, key),
            None => None,
        },
    }
}

pub open spec fn as_text(v: Option<ConfigValue>) -> Option<Seq<char>> {
    match v {
        Some(ConfigValue::Text(s)) => Some(s@),
        _ => None,
    }
}

pub open spec fn text_or_empty(v: Option<ConfigValue>) -> Seq<char> {
    match as_text(v) {
        Some(s) => s,
        None => Seq::empty(),
    }
}

pub open spec fn int_or_zero(v: Option<ConfigValue>) -> i64 {
    match v {
        Some(ConfigValue::Integer(i)) => i,
        _ => 0,
    }
}

pub open spec fn bool_or_false(v: Option<ConfigValue>) -> bool {
    match v {
        Some(ConfigValue::Boolean(b)) => b,
        _ => false,
    }
}

pub open spec fn opt_table(t: Option<&Vec<(String, ConfigValue)>>) -> Option<Seq<(String, ConfigValue)>> {
    match t {
        Some(p) => Some(p@),
        None => None,
    }
}

pub open spec fn opt_value(v: Option<&ConfigValue>) -> Option<ConfigValue> {
    match v {
        Some(x) => Some(*x),
        None => None,
    }
}

proof fn lemma_key_index_bound(t: Seq<(String, ConfigValue)>, key: Seq<char>)
    ensures
        key_index(t, key) matches Some(i) ==> 0 <= i < t.len(),
    decreases t.len(),
{
    if t.len() > 0 {
        lemma_key_index_bound(t.drop_last(), key);
    }
}

proof fn lemma_key_index_prefix(t: Seq<(String, ConfigValue)>, key: Seq<char>, n: int)
    requires
        0 <= n <= t.len(),
        key_index(t.subrange(0, n), key) is Some,
    ensures
        key_index(t, key) == key_index(t.subrange(0, n), key),
    decreases t.len() - n,
{
    if n < t.len() {
        assert(t.subrange(0, n + 1).drop_last() =~= t.subrange(0, n));
        lemma_key_index_prefix(t, key, n + 1);
    } else {
        assert(t.subrange(0, n) =~= t);
    }
}

fn key_index_exec(t: &Vec<(String, ConfigValue)>, key: &str) -> (r: Option<usize>)
    ensures
        r matches Some(i) ==> i < t@.len() && key_index(t@, key@) == Some(i as int),
        r is None ==> key_index(t@, key@) is None,
{
    proof {
        lemma_key_index_bound(t@, key@);
    }
    let k = String::from_str(key);
    let mut i: usize = 0;
    while i < t.len()
        invariant
            i <= t.len(),
            k@ == key@,
            key_index(t@.subrange(0, i as int), key@) is None,
        decreases t.len() - i,
    {
        assert(t@.subrange(0, i as int + 1).drop_last() =~= t@.subrange(0, i as int));
        if t[i].0 == k {
            proof {
                lemma_key_index_prefix(t@, key@, i as int + 1);
            }
            return Some(i);
        }
        i = i + 1;
    }
    assert(t@.subrange(0, i as int) =~= t@);
    None
}

fn field_exec<'a>(
    node: &'a Vec<(String, ConfigValue)>,
    parent: Option<&'a Vec<(String, ConfigValue)>>,
    key: &str,
) -> (r: Option<&'a ConfigValue>)
    ensures
        field(node@, opt_table(parent), key@) == opt_value(r),
{
    match key_index_exec(node, key) {
        Some(i) => {
            let e = &node[i];
            assert(node@[i as int] == *e);
            Some(&e.1)
        },
        None => match parent {
            Some(p) => match key_index_exec(p, key) {
                Some(i) => {
                    let e = &p[i];
                    assert(p@[i as int] == *e);
                    Some(&e.1)
                },
                None => None,
            },
            None => None,
        },
    }
}

fn text_of<'a>(v: Option<&'a ConfigValue>) -> (r: Option<&'a String>)
    ensures
        as_text(opt_value(v)) == match r {
            Some(s) => Some(s@),
            None => None,
        },
{
    match v {
        Some(ConfigValue::Text(s)) => Some(s),
        _ => None,
    }
}

/// The tokens of one line of an id list file: none for a comment line.
pub open spec fn line_ids(line: Seq<char>) -> Seq<Seq<char>> {
    let t = tokens(line, true);
    if t.len() > 0 && t[0].len() > 0 && t[0][0] == '#' {
        Seq::empty()
    } else {
        t
    }
}

/// The ids listed in an id list file: the whitespace-separated tokens of
/// its lines, leaving out lines whose first token starts with `#`.
pub open spec fn id_file_ids(content: Seq<char>) -> Seq<Seq<char>>
    decreases content.len(),
{
    match first_index_of(content, '\n') {
        None => line_ids(content),
        Some(p) => if 0 <= p < content.len() {
            line_ids(content.subrange(0, p)) + id_file_ids(content.subrange(p + 1, content.len() as int))
        } else {
            Seq::empty()
        },
    }
}

fn push_line_ids(line: &str, out: &mut Vec<String>)
    ensures
        texts(final(out)@) == texts(old(out)@) + line_ids(line@),
{
    let t = split_tokens(line, true);
    if t.len() > 0 {
        let first = t[0].as_str();
        assert(texts(t@)[0] == first@);
        if first.unicode_len() > 0 && first.get_char(0) == '#' {
            assert(texts(out@) + line_ids(line@) =~= texts(out@));
            return;
        }
    }
    push_tokens(line, true, out);
}

/// Appends the ids listed in an id list file to `out`.
fn push_id_file_ids(content: &str, out: &mut Vec<String>)
    ensures
        texts(final(out)@) == texts(old(out)@) + id_file_ids(content@),
    decreases content@.len(),
{
    let n = content.unicode_len();
    let mut i: usize = 0;
    while i < n && content.get_char(i) != '\n'
        invariant
            i <= n,
            n == content@.len(),
            forall|j: int| 0 <= j < i ==> content@[j] != '\n',
        decreases n - i,
    {
        i = i + 1;
    }
    if i == n {
        proof {
            crate::text::lemma_first_absent(content@, '\n');
        }
        push_line_ids(content, out);
    } else {
        proof {
            crate::text::lemma_first_is(content@, '\n', i as int);
        }
        let ghost before = texts(out@);
        push_line_ids(content.substring_char(0, i), out);
        push_id_file_ids(content.substring_char(i + 1, n), out);
        assert(texts(out@) =~= before + id_file_ids(content@));
    }
}

/// The content of the file at `path` among `files`, each a path and its content.
pub open spec fn file_content(files: Seq<(String, String)>, path: Seq<char>) -> Option<Seq<char>>
    decreases files.len(),
{
    if files.len() == 0 {
        None
    } else if files[0].0@ == path {
        Some(files[0].1@)
    } else {
        file_content(files.drop_first(), path)
    }
}

fn file_content_exec<'a>(files: &'a Vec<(String, String)>, path: &str) -> (r: Option<&'a String>)
    ensures
        file_content(files@, path@) == match r {
            Some(c) => Some(c@),
            None => None,
        },
{
    let p = String::from_str(path);
    let mut i: usize = 0;
    assert(files@.subrange(0, files@.len() as int) =~= files@);
    while i < files.len()
        invariant
            i <= files.len(),
            p@ == path@,
            file_content(files@, path@) == file_content(files@.subrange(i as int, files@.len() as int), path@),
        decreases files.len() - i,
    {
        let e = &files[i];
        assert(files@.subrange(i as int, files@.len() as int)[0] == *e);
        assert(files@.subrange(i as int, files@.len() as int).drop_first() =~= files@.subrange(i as int + 1, files@.len() as int));
        if e.0 == p {
            return Some(&e.1);
        }
        i = i + 1;
    }
    None
}

/// The device ids that a `device_ids` entry gives: a `>` followed by a path
/// names an id list file, whose ids count; else the entry's space-separated
/// tokens. `None` where the named file is not among `files`.
pub open spec fn device_id_entry(conf: Seq<char>, files: Seq<(String, String)>) -> Option<Seq<Seq<char>>> {
    if conf.len() > 0 && conf[0] == '>' {
        match file_content(files, conf.drop_first()) {
            Some(c) => Some(id_file_ids(c)),
            None => None,
        }
    } else {
        Some(tokens(conf, false))
    }
}

/// A list of ids, or the wildcard alone where it is empty.
pub open spec fn or_star(ids: Seq<Seq<char>>) -> Seq<Seq<char>> {
    if ids.len() == 0 {
        seq![seq!['*']]
    } else {
        ids
    }
}

/// The profile that the table `node` (below `parent`, if nested) declares
/// under `name`; `None` where its id list file is missing.
pub open spec fn parsed_profile(
    node: Seq<(String, ConfigValue)>,
    parent: Option<Seq<(String, ConfigValue)>>,
    name: Seq<char>,
    files: Seq<(String, String)>,
) -> Option<ProfileView> {
    match device_id_entry(text_or_empty(field(node, parent, "device_ids"@)), files) {
        None => None,
        Some(device_ids) => Some(
            ProfileView {
                is_ai_sdk: bool_or_false(field(node, parent, "ai_sdk"@)),
                prof_path: Seq::empty(),
                name: name,
                desc: text_or_empty(field(node, parent, "desc"@)),
                priority: (int_or_zero(field(node, parent, "priority"@)) as i32) as int,
                packages: text_or_empty(field(node, parent, "packages"@)),
                post_install: text_or_empty(field(node, parent, "post_install"@)),
                post_remove: text_or_empty(field(node, parent, "post_remove"@)),
                pre_install: text_or_empty(field(node, parent, "pre_install"@)),
                pre_remove: text_or_empty(field(node, parent, "pre_remove"@)),
                conditional_packages: text_or_empty(field(node, parent, "conditional_packages"@)),
                device_name_pattern: as_text(field(node, parent, "device_name_pattern"@)),
                hwd_product_name_pattern: as_text(field(node, parent, "hwd_product_name_pattern"@)),
                gc_versions: match as_text(field(node, parent, "gc_versions"@)) {
                    Some(s) => Some(tokens(s, true)),
                    None => None,
                },
                hwd_ids: seq![
                    HardwareIDView {
                        class_ids: or_star(tokens(text_or_empty(field(node, parent, "class_ids"@)), false)),
                        vendor_ids: or_star(tokens(text_or_empty(field(node, parent, "vendor_ids"@)), false)),
                        device_ids: or_star(device_ids),
                        blacklisted_class_ids: Seq::empty(),
                        blacklisted_vendor_ids: Seq::empty(),
                        blacklisted_device_ids: Seq::empty(),
                    },
                ],
            },
        ),
    }
}

fn text_field(node: &Vec<(String, ConfigValue)>, parent: Option<&Vec<(String, ConfigValue)>>, key: &str) -> (r: String)
    ensures
        r@ == text_or_empty(field(node@, opt_table(parent), key@)),
{
    match text_of(field_exec(node, parent, key)) {
        Some(s) => s.clone(),
        None => String::new(),
    }
}

fn opt_text_field(node: &Vec<(String, ConfigValue)>, parent: Option<&Vec<(String, ConfigValue)>>, key: &str) -> (r: Option<String>)
    ensures
        crate::profile::opt_text(r) == as_text(field(node@, opt_table(parent), key@)),
{
    match text_of(field_exec(node, parent, key)) {
        Some(s) => Some(s.clone()),
        None => None,
    }
}

fn star_if_empty(ids: &mut Vec<String>)
    ensures
        texts(final(ids)@) == or_star(texts(old(ids)@)),
{
    if ids.len() == 0 {
        proof {
            reveal_strlit("*");
        }
        let star = String::from_str("*");
        assert(star@ =~= seq!['*']);
        ids.push(star);
        assert(texts(ids@) =~= seq![seq!['*']]);
    }
}

/// The profile that table `node` (nested below `parent`, if given) declares
/// under `profile_name`; `files` holds the id list files it may name.
pub fn parse_profile(
    node: &Vec<(String, ConfigValue)>,
    parent: Option<&Vec<(String, ConfigValue)>>,
    profile_name: &str,
    files: &Vec<(String, String)>,
) -> (r: Option<Profile>)
    ensures
        match r {
            Some(p) => parsed_profile(node@, opt_table(parent), profile_name@, files@) == Some(p@),
            None => parsed_profile(node@, opt_table(parent), profile_name@, files@) is None,
        },
{
    let conf_devids = text_field(node, parent, "device_ids");
    let mut device_ids: Vec<String> = Vec::new();
    let n = conf_devids.as_str().unicode_len();
    if n > 0 && conf_devids.as_str().get_char(0) == '>' {
        let path = conf_devids.as_str().substring_char(1, n);
        assert(path@ =~= conf_devids@.drop_first());
        match file_content_exec(files, path) {
            Some(content) => {
                push_id_file_ids(content.as_str(), &mut device_ids);
                assert(texts(Seq::<String>::empty()) + id_file_ids(content@) =~= id_file_ids(content@));
            },
            None => {
                return None;
            },
        }
    } else {
        push_tokens(conf_devids.as_str(), false, &mut device_ids);
        assert(texts(Seq::<String>::empty()) + tokens(conf_devids@, false) =~= tokens(conf_devids@, false));
    }
    star_if_empty(&mut device_ids);
    let mut class_ids = split_tokens(text_field(node, parent, "class_ids").as_str(), false);
    star_if_empty(&mut class_ids);
    let mut vendor_ids = split_tokens(text_field(node, parent, "vendor_ids").as_str(), false);
    star_if_empty(&mut vendor_ids);
    let mut hwd_ids: Vec<HardwareID> = Vec::new();
    hwd_ids.push(
        HardwareID {
            class_ids,
            vendor_ids,
            device_ids,
            blacklisted_class_ids: Vec::new(),
            blacklisted_vendor_ids: Vec::new(),
            blacklisted_device_ids: Vec::new(),
        },
    );
    let priority: i64 = match field_exec(node, parent, "priority") {
        Some(ConfigValue::Integer(i)) => *i,
        _ => 0,
    };
    let is_ai_sdk: bool = match field_exec(node, parent, "ai_sdk") {
        Some(ConfigValue::Boolean(b)) => *b,
        _ => false,
    };
    let gc_versions = match text_of(field_exec(node, parent, "gc_versions")) {
        Some(s) => Some(split_tokens(s.as_str(), true)),
        None => None,
    };
    let p = Profile {
        is_ai_sdk,
        prof_path: String::new(),
        name: String::from_str(profile_name),
        desc: text_field(node, parent, "desc"),
        priority: #[verifier::truncate] (priority as i32),
        packages: text_field(node, parent, "packages"),
        post_install: text_field(node, parent, "post_install"),
        post_remove: text_field(node, parent, "post_remove"),
        pre_install: text_field(node, parent, "pre_install"),
        pre_remove: text_field(node, parent, "pre_remove"),
        conditional_packages: text_field(node, parent, "conditional_packages"),
        device_name_pattern: opt_text_field(node, parent, "device_name_pattern"),
        hwd_product_name_pattern: opt_text_field(node, parent, "hwd_product_name_pattern"),
        gc_versions,
        hwd_ids,
    };
    assert(texts(Seq::<String>::empty()) =~= Seq::<Seq<char>>::empty());
    let ghost want = parsed_profile(node@, opt_table(parent), profile_name@, files@)->0;
    assert(p@.hwd_ids =~= want.hwd_ids);
    assert(p@.priority == want.priority);
    assert(p@.gc_versions == want.gc_versions);
    assert(p@ == parsed_profile(node@, opt_table(parent), profile_name@, files@)->0);
    Some(p)
}

/// Why a profile document was refused as a whole.
#[derive(Debug, PartialEq, Eq)]
pub enum DocumentError {
    /// A top-level entry of the document is not a table.
    NotATable,
}

pub open spec fn is_table(v: ConfigValue) -> bool {
    v is Table
}

/// The entries of a table value; none for any other value.
pub open spec fn entries_of(v: ConfigValue) -> Seq<(String, ConfigValue)> {
    match v {
        ConfigValue::Table(t) => t@,
        _ => Seq::empty(),
    }
}

/// True when every top-level entry of the document is a table.
pub open spec fn all_tables(doc: Seq<(String, ConfigValue)>) -> bool {
    forall|i: int| 0 <= i < doc.len() ==> is_table(#[trigger] doc[i].1)
}

/// The name of a profile nested under `key`.
pub open spec fn nested_name(key: Seq<char>, nested_key: Seq<char>) -> Seq<char> {
    key + seq!['.'] + nested_key
}

pub open spec fn with_path(p: ProfileView, path: Seq<char>) -> ProfileView {
    ProfileView { prof_path: path, ..p }
}

/// The profiles of the first `k` tables nested in table `t` (named `key`).
pub open spec fn nested_profiles(
    t: Seq<(String, ConfigValue)>,
    key: Seq<char>,
    path: Seq<char>,
    files: Seq<(String, String)>,
    k: int,
) -> Seq<ProfileView>
    decreases k,
{
    if k <= 0 {
        Seq::empty()
    } else {
        let prev = nested_profiles(t, key, path, files, k - 1);
        let e = t[k - 1];
        if is_table(e.1) {
            match parsed_profile(entries_of(e.1), Some(t), nested_name(key, e.0@), files) {
                Some(p) => prev.push(with_path(p, path)),
                None => prev,
            }
        } else {
            prev
        }
    }
}

/// The profiles that one top-level entry declares: its nested profiles, then
/// itself; none where it is invalid itself.
pub open spec fn entry_profiles(e: (String, ConfigValue), path: Seq<char>, files: Seq<(String, String)>) -> Seq<ProfileView> {
    let t = entries_of(e.1);
    match parsed_profile(t, None, e.0@, files) {
        Some(top) => nested_profiles(t, e.0@, path, files, t.len() as int).push(with_path(top, path)),
        None => Seq::empty(),
    }
}

/// The profiles of the first `k` top-level entries.
pub open spec fn document_profiles(
    doc: Seq<(String, ConfigValue)>,
    path: Seq<char>,
    files: Seq<(String, String)>,
    k: int,
) -> Seq<ProfileView>
    decreases k,
{
    if k <= 0 {
        Seq::empty()
    } else {
        document_profiles(doc, path, files, k - 1) + entry_profiles(doc[k - 1], path, files)
    }
}

/// The profiles that one top-level entry yields once merged: an entry
/// without nested tables stands for itself, any other for its nested
/// profiles alone; none where it is invalid itself.
pub open spec fn entry_merged(e: (String, ConfigValue), path: Seq<char>, files: Seq<(String, String)>) -> Seq<ProfileView> {
    let t = entries_of(e.1);
    match parsed_profile(t, None, e.0@, files) {
        Some(top) => if t.len() == 0 {
            seq![with_path(top, path)]
        } else {
            nested_profiles(t, e.0@, path, files, t.len() as int)
        },
        None => Seq::empty(),
    }
}

/// The merged profiles of the first `k` top-level entries.
pub open spec fn document_merged(
    doc: Seq<(String, ConfigValue)>,
    path: Seq<char>,
    files: Seq<(String, String)>,
    k: int,
) -> Seq<ProfileView>
    decreases k,
{
    if k <= 0 {
        Seq::empty()
    } else {
        document_merged(doc, path, files, k - 1) + entry_merged(doc[k - 1], path, files)
    }
}

/// Appends to `profiles` the valid profiles nested in `table`.
fn push_nested_profiles(
    profiles: &mut Vec<Profile>,
    table: &Vec<(String, ConfigValue)>,
    key: &String,
    file_path: &str,
    files: &Vec<(String, String)>,
)
    ensures
        profile_views(final(profiles)@) == profile_views(old(profiles)@) + nested_profiles(
            table@,
            key@,
            file_path@,
            files@,
            table@.len() as int,
        ),
{
    let ghost before = profile_views(profiles@);
    let mut k: usize = 0;
    assert(before + nested_profiles(table@, key@, file_path@, files@, 0) =~= before);
    while k < table.len()
        invariant
            k <= table.len(),
            profile_views(profiles@) == before + nested_profiles(table@, key@, file_path@, files@, k as int),
        decreases table.len() - k,
    {
        let nested = &table[k];
        assert(table@[k as int] == *nested);
        match &nested.1 {
            ConfigValue::Table(nt) => {
                let name = nested_name_exec(key, &nested.0);
                assert(entries_of(nested.1) == nt@);
                match parse_profile(nt, Some(table), name.as_str(), files) {
                    Some(mut p) => {
                        let ghost parsed = p@;
                        p.prof_path = String::from_str(file_path);
                        assert(p@ == with_path(parsed, file_path@));
                        proof {
                            lemma_profile_views_push(profiles@, p);
                        }
                        profiles.push(p);
                        assert(profile_views(profiles@) =~= before + nested_profiles(table@, key@, file_path@, files@, k as int + 1));
                    },
                    None => {},
                }
            },
            _ => {},
        }
        k = k + 1;
    }
}

/// The profiles of a document with parents merged into their nested
/// tables: a top-level table with nested tables yields those alone, one
/// without yields itself. The document is refused where a top-level entry
/// is not a table.
pub fn parse_profiles_merged(doc: &Vec<(String, ConfigValue)>, file_path: &str, files: &Vec<(String, String)>) -> (r: Result<Vec<Profile>, DocumentError>)
    ensures
        match r {
            Ok(v) => all_tables(doc@) && profile_views(v@) == document_merged(doc@, file_path@, files@, doc@.len() as int),
            Err(e) => !all_tables(doc@) && e == DocumentError::NotATable,
        },
{
    let mut profiles: Vec<Profile> = Vec::new();
    let mut i: usize = 0;
    while i < doc.len()
        invariant
            i <= doc.len(),
            forall|j: int| 0 <= j < i ==> is_table(#[trigger] doc@[j].1),
            profile_views(profiles@) == document_merged(doc@, file_path@, files@, i as int),
        decreases doc.len() - i,
    {
        let entry = &doc[i];
        let table = match &entry.1 {
            ConfigValue::Table(t) => t,
            _ => {
                return Err(DocumentError::NotATable);
            },
        };
        assert(entries_of(doc@[i as int].1) == table@);
        let ghost before = profile_views(profiles@);
        match parse_profile(table, None, entry.0.as_str(), files) {
            None => {
                assert(profile_views(profiles@) =~= document_merged(doc@, file_path@, files@, i as int + 1));
            },
            Some(mut top) => {
                if table.len() == 0 {
                    let ghost parsed_top = top@;
                    top.prof_path = String::from_str(file_path);
                    assert(top@ == with_path(parsed_top, file_path@));
                    proof {
                        lemma_profile_views_push(profiles@, top);
                    }
                    profiles.push(top);
                    assert(profile_views(profiles@) =~= document_merged(doc@, file_path@, files@, i as int + 1));
                } else {
                    push_nested_profiles(&mut profiles, table, &entry.0, file_path, files);
                    assert(profile_views(profiles@) =~= document_merged(doc@, file_path@, files@, i as int + 1));
                }
            },
        }
        i = i + 1;
    }
    Ok(profiles)
}

/// The names of the invalid tables among the first `k` nested in `t`.
pub open spec fn nested_invalid(
    t: Seq<(String, ConfigValue)>,
    key: Seq<char>,
    files: Seq<(String, String)>,
    k: int,
) -> Seq<Seq<char>>
    decreases k,
{
    if k <= 0 {
        Seq::empty()
    } else {
        let prev = nested_invalid(t, key, files, k - 1);
        let e = t[k - 1];
        if is_table(e.1) && parsed_profile(entries_of(e.1), Some(t), nested_name(key, e.0@), files) is None {
            prev.push(nested_name(key, e.0@))
        } else {
            prev
        }
    }
}

/// The invalid names of one top-level entry: its own where it is invalid,
/// else those of its invalid nested tables.
pub open spec fn entry_invalid(e: (String, ConfigValue), files: Seq<(String, String)>) -> Seq<Seq<char>> {
    let t = entries_of(e.1);
    if parsed_profile(t, None, e.0@, files) is None {
        seq![e.0@]
    } else {
        nested_invalid(t, e.0@, files, t.len() as int)
    }
}

/// The invalid names of the first `k` top-level entries.
pub open spec fn document_invalid(doc: Seq<(String, ConfigValue)>, files: Seq<(String, String)>, k: int) -> Seq<Seq<char>>
    decreases k,
{
    if k <= 0 {
        Seq::empty()
    } else {
        document_invalid(doc, files, k - 1) + entry_invalid(doc[k - 1], files)
    }
}

fn nested_name_exec(key: &String, nested_key: &String) -> (r: String)
    ensures
        r@ == nested_name(key@, nested_key@),
{
    proof {
        reveal_strlit(".");
    }
    let mut r = key.clone();
    r.append(".");
    r.append(nested_key.as_str());
    assert(r@ =~= nested_name(key@, nested_key@));
    r
}

/// The profiles declared in a document read from `file_path`: for each
/// top-level table, its valid nested tables (each merged over it) and then
/// itself, all with `prof_path` set; invalid tables are skipped, and a nested
/// table is only looked at where its parent is valid. The document is
/// refused where a top-level entry is not a table.
pub fn parse_profiles(doc: &Vec<(String, ConfigValue)>, file_path: &str, files: &Vec<(String, String)>) -> (r: Result<Vec<Profile>, DocumentError>)
    ensures
        match r {
            Ok(v) => all_tables(doc@) && profile_views(v@) == document_profiles(doc@, file_path@, files@, doc@.len() as int),
            Err(e) => !all_tables(doc@) && e == DocumentError::NotATable,
        },
{
    let mut profiles: Vec<Profile> = Vec::new();
    let mut i: usize = 0;
    while i < doc.len()
        invariant
            i <= doc.len(),
            forall|j: int| 0 <= j < i ==> is_table(#[trigger] doc@[j].1),
            profile_views(profiles@) == document_profiles(doc@, file_path@, files@, i as int),
        decreases doc.len() - i,
    {
        let entry = &doc[i];
        let table = match &entry.1 {
            ConfigValue::Table(t) => t,
            _ => {
                return Err(DocumentError::NotATable);
            },
        };
        let ghost before = profile_views(profiles@);
        match parse_profile(table, None, entry.0.as_str(), files) {
            None => {
                assert(profile_views(profiles@) =~= document_profiles(doc@, file_path@, files@, i as int + 1));
            },
            Some(mut top) => {
                push_nested_profiles(&mut profiles, table, &entry.0, file_path, files);
                let ghost parsed_top = top@;
                top.prof_path = String::from_str(file_path);
                assert(top@ == with_path(parsed_top, file_path@));
                assert(entries_of(doc@[i as int].1) == table@);
                assert(entry_profiles(doc@[i as int], file_path@, files@) == nested_profiles(table@, entry.0@, file_path@, files@, table@.len() as int).push(top@));
                proof {
                    lemma_profile_views_push(profiles@, top);
                }
                profiles.push(top);
                assert(profile_views(profiles@) =~= document_profiles(doc@, file_path@, files@, i as int + 1));
            },
        }
        i = i + 1;
    }
    Ok(profiles)
}

/// The names of the invalid tables of a document: a top-level table that is
/// invalid itself, or else each of its invalid nested tables. The document
/// is refused where a top-level entry is not a table.
pub fn get_invalid_profiles(doc: &Vec<(String, ConfigValue)>, files: &Vec<(String, String)>) -> (r: Result<Vec<String>, DocumentError>)
    ensures
        match r {
            Ok(v) => all_tables(doc@) && texts(v@) == document_invalid(doc@, files@, doc@.len() as int),
            Err(e) => !all_tables(doc@) && e == DocumentError::NotATable,
        },
{
    let mut names: Vec<String> = Vec::new();
    let mut i: usize = 0;
    while i < doc.len()
        invariant
            i <= doc.len(),
            forall|j: int| 0 <= j < i ==> is_table(#[trigger] doc@[j].1),
            texts(names@) == document_invalid(doc@, files@, i as int),
        decreases doc.len() - i,
    {
        let entry = &doc[i];
        let table = match &entry.1 {
            ConfigValue::Table(t) => t,
            _ => {
                return Err(DocumentError::NotATable);
            },
        };
        assert(entries_of(doc@[i as int].1) == table@);
        let ghost before = texts(names@);
        match parse_profile(table, None, entry.0.as_str(), files) {
            None => {
                names.push(entry.0.clone());
                assert(texts(names@) =~= before + seq![entry.0@]);
            },
            Some(_) => {
                let mut k: usize = 0;
                while k < table.len()
                    invariant
                        k <= table.len(),
                        i < doc.len(),
                        entry == doc@[i as int],
                        entry.1 == ConfigValue::Table(*table),
                        texts(names@) == before + nested_invalid(table@, entry.0@, files@, k as int),
                    decreases table.len() - k,
                {
                    let nested = &table[k];
                    assert(table@[k as int] == *nested);
                    match &nested.1 {
                        ConfigValue::Table(nt) => {
                            let name = nested_name_exec(&entry.0, &nested.0);
                            assert(entries_of(nested.1) == nt@);
                            if parse_profile(nt, Some(table), name.as_str(), files).is_none() {
                                proof {
                                    crate::profile::lemma_texts_push(names@, name);
                                }
                                assert(nested_invalid(table@, entry.0@, files@, k as int + 1)
                                    == nested_invalid(table@, entry.0@, files@, k as int).push(name@));
                                names.push(name);
                                assert(texts(names@) =~= before + nested_invalid(table@, entry.0@, files@, k as int + 1));
                            }
                        },
                        _ => {},
                    }
                    k = k + 1;
                }
            },
        }
        i = i + 1;
    }
    Ok(names)
}

/// The texts of `s` joined with single spaces.
pub open spec fn join_spaced(s: Seq<Seq<char>>) -> Seq<char>
    decreases s.len(),
{
    if s.len() == 0 {
        Seq::empty()
    } else if s.len() == 1 {
        s[0]
    } else {
        join_spaced(s.drop_last()) + seq![' '] + s.last()
    }
}

fn join_spaced_exec(v: &Vec<String>) -> (r: String)
    ensures
        r@ == join_spaced(texts(v@)),
{
    proof {
        reveal_strlit(" ");
    }
    let mut r = String::new();
    let mut i: usize = 0;
    while i < v.len()
        invariant
            i <= v.len(),
            r@ == join_spaced(texts(v@).subrange(0, i as int)),
        decreases v.len() - i,
    {
        let ghost t = texts(v@).subrange(0, i as int + 1);
        assert(t.drop_last() =~= texts(v@).subrange(0, i as int));
        assert(t.last() == v@[i as int]@);
        let ghost before = r@;
        if i > 0 {
            proof {
                reveal_strlit(" ");
                assert(" "@ =~= seq![' ']);
            }
            r.append(" ");
            r.append(v[i].as_str());
            assert(r@ =~= before + seq![' '] + t.last());
        } else {
            assert(before =~= Seq::<char>::empty());
            r.append(v[i].as_str());
            assert(r@ =~= t[0]);
        }
        i = i + 1;
    }
    assert(texts(v@).subrange(0, i as int) =~= texts(v@));
    r
}

/// The optional text entries of a profile's table: each only where set.
pub open spec fn optional_texts(p: ProfileView) -> Seq<(Seq<char>, FieldView)> {
    (if p.post_install.len() > 0 { seq![("post_install"@, FieldView::Text(p.post_install))] } else { Seq::empty() })
        + (if p.post_remove.len() > 0 { seq![("post_remove"@, FieldView::Text(p.post_remove))] } else { Seq::empty() })
        + (if p.pre_install.len() > 0 { seq![("pre_install"@, FieldView::Text(p.pre_install))] } else { Seq::empty() })
        + (if p.pre_remove.len() > 0 { seq![("pre_remove"@, FieldView::Text(p.pre_remove))] } else { Seq::empty() })
        + (if p.conditional_packages.len() > 0 {
        seq![("conditional_packages"@, FieldView::Text(p.conditional_packages))]
    } else {
        Seq::empty()
    })
}

/// The optional pattern and version entries of a profile's table.
pub open spec fn optional_matchers(p: ProfileView) -> Seq<(Seq<char>, FieldView)> {
    (match p.device_name_pattern {
        Some(s) => seq![("device_name_pattern"@, FieldView::Text(s))],
        None => Seq::empty(),
    }) + (match p.hwd_product_name_pattern {
        Some(s) => seq![("hwd_product_name_pattern"@, FieldView::Text(s))],
        None => Seq::empty(),
    }) + (match p.gc_versions {
        Some(v) => seq![("gc_versions"@, FieldView::TextList(v))],
        None => Seq::empty(),
    })
}

/// The table that records a profile: its fixed fields, the optional ones
/// where set, and the ids of its last group joined by spaces.
pub open spec fn profile_table(p: ProfileView) -> Seq<(Seq<char>, FieldView)> {
    let last = p.hwd_ids.last();
    seq![
        ("ai_sdk"@, FieldView::Boolean(p.is_ai_sdk)),
        ("desc"@, FieldView::Text(p.desc)),
        ("packages"@, FieldView::Text(p.packages)),
        ("priority"@, FieldView::Integer(p.priority)),
    ] + optional_texts(p) + optional_matchers(p) + seq![
        ("device_ids"@, FieldView::Text(join_spaced(last.device_ids))),
        ("vendor_ids"@, FieldView::Text(join_spaced(last.vendor_ids))),
        ("class_ids"@, FieldView::Text(join_spaced(last.class_ids))),
    ]
}

fn push_entry(t: &mut Vec<(String, ConfigValue)>, key: &str, v: ConfigValue)
    ensures
        table_view(final(t)@) == table_view(old(t)@).push((key@, field_view(v))),
{
    let ghost fv = field_view(v);
    t.push((String::from_str(key), v));
    assert(table_view(t@) =~= table_view(old(t)@).push((key@, fv)));
}

fn push_text_if_set(t: &mut Vec<(String, ConfigValue)>, key: &str, s: &String)
    ensures
        table_view(final(t)@) == table_view(old(t)@) + (if s@.len() > 0 {
            seq![(key@, FieldView::Text(s@))]
        } else {
            Seq::empty()
        }),
{
    if s.as_str().unicode_len() > 0 {
        push_entry(t, key, ConfigValue::Text(s.clone()));
        assert(table_view(old(t)@).push((key@, FieldView::Text(s@))) =~= table_view(old(t)@) + seq![(key@, FieldView::Text(s@))]);
    } else {
        assert(table_view(old(t)@) + Seq::<(Seq<char>, FieldView)>::empty() =~= table_view(old(t)@));
    }
}

fn push_optional_texts(t: &mut Vec<(String, ConfigValue)>, profile: &Profile)
    ensures
        table_view(final(t)@) == table_view(old(t)@) + optional_texts(profile@),
{
    let ghost start = table_view(t@);
    push_text_if_set(t, "post_install", &profile.post_install);
    push_text_if_set(t, "post_remove", &profile.post_remove);
    push_text_if_set(t, "pre_install", &profile.pre_install);
    push_text_if_set(t, "pre_remove", &profile.pre_remove);
    push_text_if_set(t, "conditional_packages", &profile.conditional_packages);
    assert(table_view(t@) =~= start + optional_texts(profile@));
}

fn push_optional_matchers(t: &mut Vec<(String, ConfigValue)>, profile: &Profile)
    ensures
        table_view(final(t)@) == table_view(old(t)@) + optional_matchers(profile@),
{
    let ghost start = table_view(t@);
    match &profile.device_name_pattern {
        Some(s) => push_entry(t, "device_name_pattern", ConfigValue::Text(s.clone())),
        None => {},
    }
    let ghost a = table_view(t@);
    match &profile.hwd_product_name_pattern {
        Some(s) => push_entry(t, "hwd_product_name_pattern", ConfigValue::Text(s.clone())),
        None => {},
    }
    let ghost b = table_view(t@);
    match &profile.gc_versions {
        Some(v) => push_entry(t, "gc_versions", ConfigValue::TextList(crate::profile::copy_strings(v))),
        None => {},
    }
    assert(table_view(t@) =~= start + optional_matchers(profile@));
}

/// The table that records `profile` in the installed database.
pub fn profile_into_toml(profile: &Profile) -> (r: Vec<(String, ConfigValue)>)
    requires
        profile.hwd_ids@.len() > 0,
    ensures
        table_view(r@) == profile_table(profile@),
{
    let ghost p = profile@;
    let mut t: Vec<(String, ConfigValue)> = Vec::new();
    push_entry(&mut t, "ai_sdk", ConfigValue::Boolean(profile.is_ai_sdk));
    push_entry(&mut t, "desc", ConfigValue::Text(profile.desc.clone()));
    push_entry(&mut t, "packages", ConfigValue::Text(profile.packages.clone()));
    push_entry(&mut t, "priority", ConfigValue::Integer(profile.priority as i64));
    let ghost fixed = table_view(t@);
    push_optional_texts(&mut t, profile);
    push_optional_matchers(&mut t, profile);
    let ghost middle = table_view(t@);
    let last = &profile.hwd_ids[profile.hwd_ids.len() - 1];
    assert(p.hwd_ids.last() == last@);
    push_entry(&mut t, "device_ids", ConfigValue::Text(join_spaced_exec(&last.device_ids)));
    push_entry(&mut t, "vendor_ids", ConfigValue::Text(join_spaced_exec(&last.vendor_ids)));
    push_entry(&mut t, "class_ids", ConfigValue::Text(join_spaced_exec(&last.class_ids)));
    assert(table_view(t@) =~= profile_table(p));
    t
}

/// A document seen one level deep: each key with its table, or `None` for a
/// value that is not a table.
pub open spec fn document_view(doc: Seq<(String, ConfigValue)>) -> Seq<(Seq<char>, Option<Seq<(Seq<char>, FieldView)>>)> {
    doc.map_values(
        |e: (String, ConfigValue)|
            (
                e.0@,
                match e.1 {
                    ConfigValue::Table(t) => Some(table_view(t@)),
                    _ => None,
                },
            ),
    )
}

/// `d` with `key` set to `v`: the entry of that key replaced, else one appended.
pub open spec fn set_entry<V>(d: Seq<(Seq<char>, V)>, key: Seq<char>, v: V) -> Seq<(Seq<char>, V)> {
    match first_key(d, key) {
        Some(i) => d.update(i, (key, v)),
        None => d.push((key, v)),
    }
}

/// Index of the first entry of `d` under `key`.
pub open spec fn first_key<V>(d: Seq<(Seq<char>, V)>, key: Seq<char>) -> Option<int>
    decreases d.len(),
{
    if d.len() == 0 {
        None
    } else if d.last().0 == key && first_key(d.drop_last(), key) is None {
        Some(d.len() - 1)
    } else {
        first_key(d.drop_last(), key)
    }
}

proof fn lemma_first_key(doc: Seq<(String, ConfigValue)>, key: Seq<char>)
    ensures
        first_key(document_view(doc), key) == key_index(doc, key),
    decreases doc.len(),
{
    if doc.len() > 0 {
        lemma_first_key(doc.drop_last(), key);
        assert(document_view(doc).drop_last() =~= document_view(doc.drop_last()));
    }
}

proof fn lemma_parsed_one_group(
    node: Seq<(String, ConfigValue)>,
    parent: Option<Seq<(String, ConfigValue)>>,
    name: Seq<char>,
    files: Seq<(String, String)>,
)
    ensures
        parsed_profile(node, parent, name, files) matches Some(p) ==> p.hwd_ids.len() == 1,
{
}

proof fn lemma_nested_one_group(t: Seq<(String, ConfigValue)>, key: Seq<char>, path: Seq<char>, files: Seq<(String, String)>, k: int)
    ensures
        forall|i: int| 0 <= i < nested_profiles(t, key, path, files, k).len() ==> (#[trigger] nested_profiles(t, key, path, files, k)[i]).hwd_ids.len() == 1,
    decreases k,
{
    if k > 0 {
        lemma_nested_one_group(t, key, path, files, k - 1);
        let e = t[k - 1];
        lemma_parsed_one_group(entries_of(e.1), Some(t), nested_name(key, e.0@), files);
    }
}

proof fn lemma_document_one_group(doc: Seq<(String, ConfigValue)>, path: Seq<char>, files: Seq<(String, String)>, k: int)
    ensures
        forall|i: int| 0 <= i < document_profiles(doc, path, files, k).len() ==> (#[trigger] document_profiles(doc, path, files, k)[i]).hwd_ids.len() == 1,
    decreases k,
{
    if k > 0 {
        lemma_document_one_group(doc, path, files, k - 1);
        let e = doc[k - 1];
        let t = entries_of(e.1);
        lemma_nested_one_group(t, e.0@, path, files, t.len() as int);
        lemma_parsed_one_group(t, None, e.0@, files);
        let a = document_profiles(doc, path, files, k - 1);
        let b = entry_profiles(e, path, files);
        assert forall|i: int| 0 <= i < (a + b).len() implies (#[trigger] (a + b)[i]).hwd_ids.len() == 1 by {
            if i < a.len() {
                assert((a + b)[i] == a[i]);
            } else {
                assert((a + b)[i] == b[i - a.len()]);
            }
        }
    }
}

fn set_entry_exec(doc: &mut Vec<(String, ConfigValue)>, key: &String, table: Vec<(String, ConfigValue)>)
    ensures
        document_view(final(doc)@) == set_entry(document_view(old(doc)@), key@, Some(table_view(table@))),
{
    proof {
        lemma_first_key(doc@, key@);
    }
    let ghost tv = table_view(table@);
    let ghost before = document_view(doc@);
    match key_index_exec(doc, key.as_str()) {
        Some(i) => {
            doc[i] = (key.clone(), ConfigValue::Table(table));
            assert(document_view(doc@) =~= before.update(i as int, (key@, Some(tv))));
        },
        None => {
            doc.push((key.clone(), ConfigValue::Table(table)));
            assert(document_view(doc@) =~= before.push((key@, Some(tv))));
        },
    }
}

/// Records `profile` in a document of installed profiles under its name. Refused,
/// leaving the document as it is, where the document is not a table of
/// tables or already declares a profile of that name.
pub fn add_profile_to_document(doc: &mut Vec<(String, ConfigValue)>, profile: &Profile, files: &Vec<(String, String)>) -> (r: bool)
    requires
        profile.hwd_ids@.len() > 0,
    ensures
        r == (all_tables(old(doc)@) && !crate::ranking::has_name(
            document_profiles(old(doc)@, Seq::empty(), files@, old(doc)@.len() as int),
            profile@.name,
        )),
        r ==> document_view(final(doc)@) == set_entry(document_view(old(doc)@), profile@.name, Some(profile_table(profile@))),
        !r ==> final(doc)@ == old(doc)@,
{
    proof {
        reveal_strlit("");
    }
    assert(""@ =~= Seq::<char>::empty());
    let declared = match parse_profiles(doc, "", files) {
        Ok(v) => v,
        Err(_) => {
            return false;
        },
    };
    let ghost dv = profile_views(declared@);
    let mut i: usize = 0;
    while i < declared.len()
        invariant
            i <= declared.len(),
            dv == profile_views(declared@),
            all_tables(doc@),
            doc@ == old(doc)@,
            dv == document_profiles(doc@, Seq::empty(), files@, doc@.len() as int),
            forall|j: int| 0 <= j < i ==> (#[trigger] dv[j]).name != profile@.name,
        decreases declared.len() - i,
    {
        assert(dv[i as int] == declared@[i as int]@);
        if declared[i].name == profile.name {
            assert(dv[i as int].name == profile@.name);
            return false;
        }
        i = i + 1;
    }
    let table = profile_into_toml(profile);
    set_entry_exec(doc, &profile.name, table);
    true
}

/// Index of the first profile of `s` named `name`.
pub open spec fn named_index(s: Seq<ProfileView>, name: Seq<char>) -> Option<int>
    decreases s.len(),
{
    if s.len() == 0 {
        None
    } else if s.last().name == name && named_index(s.drop_last(), name) is None {
        Some(s.len() - 1)
    } else {
        named_index(s.drop_last(), name)
    }
}

/// A document recording the profiles of `ps`, each as a table under its name.
pub open spec fn document_of(ps: Seq<ProfileView>) -> Seq<(Seq<char>, Option<Seq<(Seq<char>, FieldView)>>)>
    decreases ps.len(),
{
    if ps.len() == 0 {
        Seq::empty()
    } else {
        set_entry(document_of(ps.drop_last()), ps.last().name, Some(profile_table(ps.last())))
    }
}

/// The document without the profile named `profile_name`: every other profile
/// it declares, written back each as a table under its own name. `None`
/// where the document is not a table of tables or declares no such profile.
pub fn remove_profile_from_document(doc: &Vec<(String, ConfigValue)>, profile_name: &str, files: &Vec<(String, String)>) -> (r: Option<Vec<(String, ConfigValue)>>)
    ensures
        match r {
            Some(d) => all_tables(doc@) && {
                let ps = document_profiles(doc@, Seq::empty(), files@, doc@.len() as int);
                &&& named_index(ps, profile_name@) matches Some(k)
                &&& document_view(d@) == document_of(ps.remove(named_index(ps, profile_name@)->0))
            },
            None => !all_tables(doc@) || named_index(
                document_profiles(doc@, Seq::empty(), files@, doc@.len() as int),
                profile_name@,
            ) is None,
        },
{
    proof {
        reveal_strlit("");
    }
    assert(""@ =~= Seq::<char>::empty());
    let mut profiles = match parse_profiles(doc, "", files) {
        Ok(v) => v,
        Err(_) => {
            return None;
        },
    };
    let ghost ps = profile_views(profiles@);
    proof {
        lemma_document_one_group(doc@, Seq::empty(), files@, doc@.len() as int);
    }
    let name = String::from_str(profile_name);
    let pos = match named_index_exec(&profiles, &name) {
        Some(p) => p,
        None => {
            return None;
        },
    };
    profiles.remove(pos);
    let ghost rest = profile_views(profiles@);
    assert(rest =~= ps.remove(pos as int));
    let mut out: Vec<(String, ConfigValue)> = Vec::new();
    let mut k: usize = 0;
    assert(document_view(out@) =~= document_of(rest.subrange(0, 0)));
    while k < profiles.len()
        invariant
            k <= profiles.len(),
            rest == profile_views(profiles@),
            forall|i: int| 0 <= i < rest.len() ==> (#[trigger] rest[i]).hwd_ids.len() == 1,
            document_view(out@) == document_of(rest.subrange(0, k as int)),
        decreases profiles.len() - k,
    {
        assert(rest.subrange(0, k as int + 1).drop_last() =~= rest.subrange(0, k as int));
        assert(rest[k as int] == profiles@[k as int]@);
        let table = profile_into_toml(&profiles[k]);
        set_entry_exec(&mut out, &profiles[k].name, table);
        k = k + 1;
    }
    assert(rest.subrange(0, k as int) =~= rest);
    Some(out)
}

fn named_index_exec(profiles: &Vec<Profile>, name: &String) -> (r: Option<usize>)
    ensures
        r matches Some(i) ==> i < profiles@.len() && named_index(profile_views(profiles@), name@) == Some(i as int),
        r is None ==> named_index(profile_views(profiles@), name@) is None,
{
    let ghost ps = profile_views(profiles@);
    let mut pos: usize = 0;
    assert(ps.subrange(0, 0) =~= Seq::<ProfileView>::empty());
    while pos < profiles.len()
        invariant
            pos <= profiles.len(),
            ps == profile_views(profiles@),
            named_index(ps.subrange(0, pos as int), name@) is None,
        decreases profiles.len() - pos,
    {
        assert(ps.subrange(0, pos as int + 1).drop_last() =~= ps.subrange(0, pos as int));
        assert(ps[pos as int] == profiles@[pos as int]@);
        if profiles[pos].name == *name {
            proof {
                lemma_named_index_prefix(ps, name@, pos as int + 1);
            }
            return Some(pos);
        }
        pos = pos + 1;
    }
    assert(ps.subrange(0, pos as int) =~= ps);
    None
}

proof fn lemma_named_index_prefix(s: Seq<ProfileView>, name: Seq<char>, n: int)
    requires
        0 < n <= s.len(),
        s[n - 1].name == name,
        named_index(s.subrange(0, n - 1), name) is None,
    ensures
        named_index(s, name) == Some(n - 1),
    decreases s.len() - n,
{
    assert(s.subrange(0, n).drop_last() =~= s.subrange(0, n - 1));
    if n < s.len() {
        lemma_named_index_prefix_more(s, name, n);
    } else {
        assert(s.subrange(0, n) =~= s);
    }
}

proof fn lemma_named_index_prefix_more(s: Seq<ProfileView>, name: Seq<char>, n: int)
    requires
        0 < n <= s.len(),
        named_index(s.subrange(0, n), name) is Some,
    ensures
        named_index(s, name) == named_index(s.subrange(0, n), name),
    decreases s.len() - n,
{
    if n < s.len() {
        assert(s.subrange(0, n + 1).drop_last() =~= s.subrange(0, n));
        lemma_named_index_prefix_more(s, name, n + 1);
    } else {
        assert(s.subrange(0, n) =~= s);
    }
}

/// The id list file that a table names in its own `device_ids` entry, if any.
pub open spec fn named_id_file(t: Seq<(String, ConfigValue)>) -> Option<Seq<char>> {
    match as_text(lookup(t, "device_ids"@)) {
        Some(s) => if s.len() > 0 && s[0] == '>' {
            Some(s.drop_first())
        } else {
            None
        },
        None => None,
    }
}

fn push_named_id_file(t: &Vec<(String, ConfigValue)>, out: &mut Vec<String>)
    ensures
        texts(final(out)@) == texts(old(out)@) + match named_id_file(t@) {
            Some(p) => seq![p],
            None => Seq::empty(),
        },
{
    let ghost before = texts(out@);
    match text_of(field_exec(t, None, "device_ids")) {
        Some(s) => {
            let n = s.as_str().unicode_len();
            if n > 0 && s.as_str().get_char(0) == '>' {
                let path = s.as_str().substring_char(1, n);
                assert(path@ =~= s@.drop_first());
                let owned = String::from_str(path);
                proof {
                    crate::profile::lemma_texts_push(out@, owned);
                }
                out.push(owned);
                assert(texts(out@) =~= before + seq![s@.drop_first()]);
                return;
            }
        },
        None => {},
    }
    assert(texts(out@) =~= before + Seq::<Seq<char>>::empty());
}

/// The id list files that the tables of a document name, top-level and
/// nested, in document order; a nested table without its own entry uses
/// the one its parent names.
pub fn referenced_id_files(doc: &Vec<(String, ConfigValue)>) -> (r: Vec<String>)
    ensures
        forall|i: int|
            0 <= i < doc@.len() && #[trigger] named_id_file(entries_of(doc@[i].1)) is Some ==> texts(r@).contains(
                named_id_file(entries_of(doc@[i].1))->0,
            ),
        forall|i: int, j: int|
            0 <= i < doc@.len() && 0 <= j < entries_of(doc@[i].1).len() && #[trigger] named_id_file(
                entries_of(entries_of(doc@[i].1)[j].1),
            ) is Some ==> texts(r@).contains(named_id_file(entries_of(entries_of(doc@[i].1)[j].1))->0),
{
    let mut out: Vec<String> = Vec::new();
    let mut i: usize = 0;
    while i < doc.len()
        invariant
            i <= doc.len(),
            forall|k: int|
                0 <= k < i && #[trigger] named_id_file(entries_of(doc@[k].1)) is Some ==> texts(out@).contains(
                    named_id_file(entries_of(doc@[k].1))->0,
                ),
            forall|k: int, j: int|
                0 <= k < i && 0 <= j < entries_of(doc@[k].1).len() && #[trigger] named_id_file(
                    entries_of(entries_of(doc@[k].1)[j].1),
                ) is Some ==> texts(out@).contains(named_id_file(entries_of(entries_of(doc@[k].1)[j].1))->0),
        decreases doc.len() - i,
    {
        let e = &doc[i];
        assert(doc@[i as int] == *e);
        match &e.1 {
            ConfigValue::Table(t) => {
                let ghost before = texts(out@);
                push_named_id_file(t, &mut out);
                assert forall|x: Seq<char>| before.contains(x) implies texts(out@).contains(x) by {
                    let k = choose|k: int| 0 <= k < before.len() && before[k] == x;
                    assert(texts(out@)[k] == x);
                }
                proof {
                    if named_id_file(t@) is Some {
                        assert(texts(out@)[before.len() as int] == named_id_file(t@)->0);
                    }
                }
                let mut j: usize = 0;
                while j < t.len()
                    invariant
                        j <= t.len(),
                        i < doc@.len(),
                        doc@[i as int].1 == ConfigValue::Table(*t),
                        forall|x: Seq<char>| before.contains(x) ==> texts(out@).contains(x),
                        named_id_file(t@) is Some ==> texts(out@).contains(named_id_file(t@)->0),
                        forall|m: int|
                            0 <= m < j && #[trigger] named_id_file(entries_of(t@[m].1)) is Some ==> texts(out@).contains(
                                named_id_file(entries_of(t@[m].1))->0,
                            ),
                    decreases t.len() - j,
                {
                    let ne = &t[j];
                    assert(t@[j as int] == *ne);
                    let ghost mid = texts(out@);
                    match &ne.1 {
                        ConfigValue::Table(nt) => {
                            push_named_id_file(nt, &mut out);
                            assert forall|x: Seq<char>| mid.contains(x) implies texts(out@).contains(x) by {
                                let k = choose|k: int| 0 <= k < mid.len() && mid[k] == x;
                                assert(texts(out@)[k] == x);
                            }
                            proof {
                                if named_id_file(nt@) is Some {
                                    assert(texts(out@)[mid.len() as int] == named_id_file(nt@)->0);
                                }
                            }
                        },
                        _ => {
                            assert(entries_of(ne.1) =~= Seq::<(String, ConfigValue)>::empty());
                            assert(named_id_file(entries_of(ne.1)) is None);
                        },
                    }
                    j = j + 1;
                }
            },
            _ => {
                assert(entries_of(e.1) =~= Seq::<(String, ConfigValue)>::empty());
            },
        }
        i = i + 1;
    }
    out
}

} // verus!
