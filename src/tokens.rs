//! Splitting text into tokens.

use vstd::prelude::*;

verus! {

/// ASCII whitespace, as `str::split_ascii_whitespace` takes it.
pub open spec fn is_ascii_ws(c: char) -> bool {
    c == ' ' || c == '\t' || c == '\n' || c == '\x0C' || c == '\r'
}

/// A separator: a space, or any ASCII whitespace where `ws` holds.
pub open spec fn is_sep(c: char, ws: bool) -> bool {
    if ws {
        is_ascii_ws(c)
    } else {
        c == ' '
    }
}

/// Index of the first separator in `s`.
pub open spec fn first_sep(s: Seq<char>, ws: bool) -> Option<int>
    decreases s.len(),
{
    if s.len() == 0 {
        None
    } else if is_sep(s[0], ws) {
        Some(0)
    } else {
        match first_sep(s.drop_first(), ws) {
            Some(i) => Some(i + 1),
            None => None,
        }
    }
}

/// The non-empty pieces of `s` between separators, in order.
pub open spec fn tokens(s: Seq<char>, ws: bool) -> Seq<Seq<char>>
    decreases s.len(),
{
    match first_sep(s, ws) {
        None => if s.len() == 0 {
            Seq::empty()
        } else {
            seq![s]
        },
        Some(p) => if 0 <= p < s.len() {
            let rest = tokens(s.subrange(p + 1, s.len() as int), ws);
            if p == 0 {
                rest
            } else {
                seq![s.subrange(0, p)] + rest
            }
        } else {
            Seq::empty()
        },
    }
}

proof fn lemma_first_sep_is(s: Seq<char>, ws: bool, k: int)
    requires
        0 <= k < s.len(),
        is_sep(s[k], ws),
        forall|j: int| 0 <= j < k ==> !is_sep(s[j], ws),
    ensures
        first_sep(s, ws) == Some(k),
    decreases k,
{
    if k > 0 {
        assert(s.drop_first()[k - 1] == s[k]);
        assert forall|j: int| 0 <= j < k - 1 implies !is_sep(s.drop_first()[j], ws) by {
            assert(s.drop_first()[j] == s[j + 1]);
        }
        lemma_first_sep_is(s.drop_first(), ws, k - 1);
    }
}

proof fn lemma_first_sep_absent(s: Seq<char>, ws: bool)
    requires
        forall|j: int| 0 <= j < s.len() ==> !is_sep(s[j], ws),
    ensures
        first_sep(s, ws) is None,
    decreases s.len(),
{
    if s.len() > 0 {
        assert forall|j: int| 0 <= j < s.drop_first().len() implies !is_sep(s.drop_first()[j], ws) by {
            assert(s.drop_first()[j] == s[j + 1]);
        }
        lemma_first_sep_absent(s.drop_first(), ws);
    }
}

fn is_sep_exec(c: char, ws: bool) -> (r: bool)
    ensures
        r == is_sep(c, ws),
{
    if ws {
        c == ' ' || c == '\t' || c == '\n' || c == '\x0C' || c == '\r'
    } else {
        c == ' '
    }
}

/// Appends the tokens of `s` to `out`.
pub(crate) fn push_tokens(s: &str, ws: bool, out: &mut Vec<String>)
    ensures
        crate::profile::texts(final(out)@) == crate::profile::texts(old(out)@) + tokens(s@, ws),
    decreases s@.len(),
{
    let n = s.unicode_len();
    let mut i: usize = 0;
    while i < n && !is_sep_exec(s.get_char(i), ws)
        invariant
            i <= n,
            n == s@.len(),
            forall|j: int| 0 <= j < i ==> !is_sep(s@[j], ws),
        decreases n - i,
    {
        i = i + 1;
    }
    let ghost before = crate::profile::texts(out@);
    if i == n {
        proof {
            lemma_first_sep_absent(s@, ws);
        }
        if n > 0 {
            out.push(String::from_str(s));
            assert(crate::profile::texts(out@) =~= before + seq![s@]);
        } else {
            assert(crate::profile::texts(out@) =~= before + Seq::<Seq<char>>::empty());
        }
    } else {
        proof {
            lemma_first_sep_is(s@, ws, i as int);
        }
        if i > 0 {
            let head = s.substring_char(0, i);
            out.push(String::from_str(head));
            assert(crate::profile::texts(out@) =~= before + seq![s@.subrange(0, i as int)]);
        }
        let ghost mid = crate::profile::texts(out@);
        push_tokens(s.substring_char(i + 1, n), ws, out);
        assert(crate::profile::texts(out@) =~= mid + tokens(s@.subrange(i + 1, n as int), ws));
        if i > 0 {
            assert(seq![s@.subrange(0, i as int)] + tokens(s@.subrange(i + 1, n as int), ws)
                =~= tokens(s@, ws));
            assert(crate::profile::texts(out@) =~= before + tokens(s@, ws));
        } else {
            assert(crate::profile::texts(out@) =~= before + tokens(s@, ws));
        }
    }
}

/// The tokens of `s` as strings.
pub fn split_tokens(s: &str, ws: bool) -> (r: Vec<String>)
    ensures
        crate::profile::texts(r@) == tokens(s@, ws),
{
    let mut r: Vec<String> = Vec::new();
    push_tokens(s, ws, &mut r);
    assert(crate::profile::texts(Seq::<String>::empty()) + tokens(s@, ws) =~= tokens(s@, ws));
    r
}

} // verus!
