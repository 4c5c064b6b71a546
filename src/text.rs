//! Text helpers: case folding, pattern matching and path splitting.

use vstd::prelude::*;

verus! {

/// What `str::to_lowercase` returns for a text.
pub uninterp spec fn lower_of(s: Seq<char>) -> Seq<char>;

/// What a regular expression compiled from `pattern` says of `text`:
/// `None` when the pattern is refused, else whether it matches somewhere in `text`.
pub uninterp spec fn regex_match_of(pattern: Seq<char>, text: Seq<char>) -> Option<bool>;

/// Relies on `str::to_lowercase`: the result depends on the characters alone.
#[verifier::external_body]
pub(crate) fn lowercase(s: &str) -> (r: String)
    ensures
        r@ == lower_of(s@),
{
    s.to_lowercase()
}

/// Relies on `regex::Regex::new` and `regex::Regex::is_match`: compiling is a
/// function of the pattern, and matching of the compiled pattern and the text.
#[verifier::external_body]
pub(crate) fn regex_match(pattern: &str, text: &str) -> (r: Option<bool>)
    ensures
        r == regex_match_of(pattern@, text@),
{
    match regex::Regex::new(pattern) {
        Ok(re) => Some(re.is_match(text)),
        Err(_) => None,
    }
}

/// True when a pattern compiles and matches somewhere in the text.
pub open spec fn pattern_matches(pattern: Seq<char>, text: Seq<char>) -> bool {
    regex_match_of(pattern, text) == Some(true)
}

/// Index of the last `c` in `s`, if any.
pub open spec fn last_index_of(s: Seq<char>, c: char) -> Option<int>
    decreases s.len(),
{
    if s.len() == 0 {
        None
    } else if s.last() == c {
        Some(s.len() - 1)
    } else {
        last_index_of(s.drop_last(), c)
    }
}

proof fn lemma_absent(s: Seq<char>, c: char)
    requires
        forall|j: int| 0 <= j < s.len() ==> s[j] != c,
    ensures
        last_index_of(s, c) is None,
    decreases s.len(),
{
    if s.len() > 0 {
        assert forall|j: int| 0 <= j < s.drop_last().len() implies s.drop_last()[j] != c by {
            assert(s.drop_last()[j] == s[j]);
        }
        lemma_absent(s.drop_last(), c);
    }
}

/// The command name of a command line: what follows its last `/`.
pub open spec fn cmdname_of(s: Seq<char>) -> Seq<char> {
    match last_index_of(s, '/') {
        Some(i) => s.subrange(i + 1, s.len() as int),
        None => s,
    }
}

/// Returns the part of `cmd_line` after its last `/`, or all of it where it has none.
pub fn get_current_cmdname(cmd_line: &str) -> (r: &str)
    ensures
        r@ == cmdname_of(cmd_line@),
{
    let n = cmd_line.unicode_len();
    let mut i: usize = n;
    while i > 0
        invariant
            i <= n,
            n == cmd_line@.len(),
            forall|j: int| i <= j < n ==> cmd_line@[j] != '/',
        decreases i,
    {
        if cmd_line.get_char(i - 1) == '/' {
            proof {
                lemma_last_is(cmd_line@, '/', i - 1);
            }
            return cmd_line.substring_char(i, n);
        }
        i = i - 1;
    }
    proof {
        lemma_absent(cmd_line@, '/');
    }
    cmd_line
}

proof fn lemma_last_is(s: Seq<char>, c: char, k: int)
    requires
        0 <= k < s.len(),
        s[k] == c,
        forall|j: int| k < j < s.len() ==> s[j] != c,
    ensures
        last_index_of(s, c) == Some(k),
    decreases s.len(),
{
    if k < s.len() - 1 {
        assert(s.drop_last()[k] == c);
        lemma_last_is(s.drop_last(), c, k);
    }
}

/// Index of the first `c` in `s`, if any.
pub open spec fn first_index_of(s: Seq<char>, c: char) -> Option<int>
    decreases s.len(),
{
    if s.len() == 0 {
        None
    } else if s[0] == c {
        Some(0)
    } else {
        match first_index_of(s.drop_first(), c) {
            Some(i) => Some(i + 1),
            None => None,
        }
    }
}

pub(crate) proof fn lemma_first_is(s: Seq<char>, c: char, k: int)
    requires
        0 <= k < s.len(),
        s[k] == c,
        forall|j: int| 0 <= j < k ==> s[j] != c,
    ensures
        first_index_of(s, c) == Some(k),
    decreases k,
{
    if k > 0 {
        assert(s.drop_first()[k - 1] == c);
        assert forall|j: int| 0 <= j < k - 1 implies s.drop_first()[j] != c by {
            assert(s.drop_first()[j] == s[j + 1]);
        }
        lemma_first_is(s.drop_first(), c, k - 1);
    }
}

pub(crate) proof fn lemma_first_absent(s: Seq<char>, c: char)
    requires
        forall|j: int| 0 <= j < s.len() ==> s[j] != c,
    ensures
        first_index_of(s, c) is None,
    decreases s.len(),
{
    if s.len() > 0 {
        assert forall|j: int| 0 <= j < s.drop_first().len() implies s.drop_first()[j] != c by {
            assert(s.drop_first()[j] == s[j + 1]);
        }
        lemma_first_absent(s.drop_first(), c);
    }
}

/// The `k`-th field (from 0) of `s` split at every `/`; empty where `s` has fewer fields.
pub open spec fn path_field(s: Seq<char>, k: nat) -> Seq<char>
    decreases s.len(),
{
    match first_index_of(s, '/') {
        None => if k == 0 {
            s
        } else {
            Seq::empty()
        },
        Some(p) => if k == 0 {
            s.subrange(0, p)
        } else if 0 <= p < s.len() {
            path_field(s.subrange(p + 1, s.len() as int), (k - 1) as nat)
        } else {
            Seq::empty()
        },
    }
}

fn path_field_exec<'a>(s: &'a str, k: usize) -> (r: &'a str)
    ensures
        r@ == path_field(s@, k as nat),
    decreases k,
{
    let n = s.unicode_len();
    let mut i: usize = 0;
    while i < n && s.get_char(i) != '/'
        invariant
            i <= n,
            n == s@.len(),
            forall|j: int| 0 <= j < i ==> s@[j] != '/',
        decreases n - i,
    {
        i = i + 1;
    }
    if i == n {
        proof {
            lemma_first_absent(s@, '/');
        }
        if k == 0 {
            s
        } else {
            proof {
                reveal_strlit("");
            }
            ""
        }
    } else {
        proof {
            lemma_first_is(s@, '/', i as int);
        }
        if k == 0 {
            s.substring_char(0, i)
        } else {
            path_field_exec(s.substring_char(i + 1, n), k - 1)
        }
    }
}

/// The PCI bus id in a path under the amdgpu driver's sysfs directory: its
/// seventh `/`-separated field, or empty where the path has fewer.
pub fn get_sysfs_busid_from_amdgpu_path(amdgpu_path: &str) -> (r: &str)
    ensures
        r@ == path_field(amdgpu_path@, 6),
{
    path_field_exec(amdgpu_path, 6)
}

/// The lower-case hexadecimal digits.
pub open spec fn hex_digits() -> Seq<char> {
    seq!['0', '1', '2', '3', '4', '5', '6', '7', '8', '9', 'a', 'b', 'c', 'd', 'e', 'f']
}

/// `n` in lower-case hexadecimal, without leading zeros.
pub open spec fn hex_of(n: nat) -> Seq<char>
    decreases n,
{
    if n < 16 {
        seq![hex_digits()[n as int]]
    } else {
        hex_of(n / 16).push(hex_digits()[(n % 16) as int])
    }
}

/// `s` with zeros in front up to `width` characters.
pub open spec fn zero_padded(s: Seq<char>, width: nat) -> Seq<char> {
    if s.len() >= width {
        s
    } else {
        Seq::new((width - s.len()) as nat, |i: int| '0') + s
    }
}

fn push_hex(n: u32, out: &mut String)
    ensures
        final(out)@ == old(out)@ + hex_of(n as nat),
    decreases n,
{
    proof {
        reveal_strlit("0123456789abcdef");
        assert("0123456789abcdef"@ =~= hex_digits());
    }
    if n >= 16 {
        push_hex(n / 16, out);
    }
    let d = (n % 16) as usize;
    let digit = "0123456789abcdef".substring_char(d, d + 1);
    let ghost before = out@;
    out.append(digit);
    assert(digit@ =~= seq![hex_digits()[d as int]]);
    if n >= 16 {
        assert(out@ =~= old(out)@ + hex_of(n as nat));
    } else {
        assert(out@ =~= old(out)@ + hex_of(n as nat));
    }
}

/// `value` as lower-case hexadecimal, zero-padded to `width` digits: the
/// form device ids take.
pub fn hex_id(value: u32, width: usize) -> (r: String)
    ensures
        r@ == zero_padded(hex_of(value as nat), width as nat),
{
    let mut digits = String::new();
    push_hex(value, &mut digits);
    assert(digits@ =~= hex_of(value as nat));
    let len = digits.as_str().unicode_len();
    let mut r = String::new();
    let mut i: usize = len;
    proof {
        reveal_strlit("0");
        assert("0"@ =~= seq!['0']);
    }
    while i < width
        invariant
            len <= i,
            i <= width || i == len,
            r@.len() == i - len,
            forall|k: int| 0 <= k < r@.len() ==> r@[k] == '0',
            "0"@ == seq!['0'],
        decreases width - i,
    {
        r.append("0");
        i = i + 1;
    }
    r.append(digits.as_str());
    if len >= width {
        assert(r@ =~= digits@);
    } else {
        assert(r@ =~= zero_padded(hex_of(value as nat), width as nat));
    }
    r
}

} // verus!
