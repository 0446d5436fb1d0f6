//! Character-level string utilities: equality, splitting into lines and
//! whitespace-separated tokens, and locating a token in a token list.

use vstd::prelude::*;

verus! {

/// Character-by-character string equality, decided over the views.
pub fn str_eq(a: &str, b: &str) -> (r: bool)
    ensures
        r == (a@ == b@),
{
    let alen = a.unicode_len();
    let blen = b.unicode_len();
    if alen != blen {
        assert(a@ != b@) by {
            assert(a@.len() != b@.len());
        }
        return false;
    }
    let mut i: usize = 0;
    while i < alen
        invariant
            alen == a@.len(),
            alen == b@.len(),
            i <= alen,
            forall|j: int| 0 <= j < i ==> a@[j] == b@[j],
        decreases alen - i,
    {
        if a.get_char(i) != b.get_char(i) {
            return false;
        }
        i += 1;
    }
    assert(a@ =~= b@);
    true
}

/// The segments of `s` between occurrences of the separator `sep`, empties
/// kept, processed front to back with the segment built so far in `cur` and
/// the finished segments in `acc`.
pub open spec fn split_sep_rec(s: Seq<char>, sep: char, cur: Seq<char>, acc: Seq<Seq<char>>) -> Seq<
    Seq<char>,
>
    decreases s.len(),
{
    if s.len() == 0 {
        acc.push(cur)
    } else if s[0] == sep {
        split_sep_rec(s.drop_first(), sep, Seq::empty(), acc.push(cur))
    } else {
        split_sep_rec(s.drop_first(), sep, cur.push(s[0]), acc)
    }
}

/// The segments of `s` between occurrences of `sep`, empty segments kept:
/// the splitting that `str::split` performs on a single-character pattern.
pub open spec fn split_sep(s: Seq<char>, sep: char) -> Seq<Seq<char>> {
    split_sep_rec(s, sep, Seq::empty(), Seq::empty())
}

proof fn lemma_split_sep_rec_len(s: Seq<char>, sep: char, cur: Seq<char>, acc: Seq<Seq<char>>)
    ensures
        split_sep_rec(s, sep, cur, acc).len() >= acc.len() + 1,
    decreases s.len(),
{
    if s.len() == 0 {
    } else if s[0] == sep {
        lemma_split_sep_rec_len(s.drop_first(), sep, Seq::empty(), acc.push(cur));
    } else {
        lemma_split_sep_rec_len(s.drop_first(), sep, cur.push(s[0]), acc);
    }
}

/// Splitting never returns an empty sequence: even an empty input yields one
/// (empty) segment.
pub proof fn lemma_split_sep_nonempty(s: Seq<char>, sep: char)
    ensures
        split_sep(s, sep).len() >= 1,
{
    lemma_split_sep_rec_len(s, sep, Seq::empty(), Seq::empty());
}

/// Splits `s` on every occurrence of `sep`, keeping empty segments.
pub fn split_on_char(s: &str, sep: char) -> (r: Vec<String>)
    ensures
        r.deep_view() == split_sep(s@, sep),
{
    let len: usize = s.unicode_len();
    let mut r: Vec<String> = Vec::new();
    let mut start: usize = 0;
    let mut i: usize = 0;
    assert(s@.skip(0) =~= s@);
    assert(s@.subrange(0, 0) =~= Seq::<char>::empty());
    assert(r.deep_view() =~= Seq::<Seq<char>>::empty());
    while i < len
        invariant
            len == s@.len(),
            start <= i <= len,
            split_sep_rec(s@.skip(i as int), sep, s@.subrange(start as int, i as int), r.deep_view())
                == split_sep(s@, sep),
        decreases len - i,
    {
        let ghost pre = r.deep_view();
        let ghost cur = s@.subrange(start as int, i as int);
        assert(s@.skip(i as int)[0] == s@[i as int]);
        assert(s@.skip(i as int).drop_first() =~= s@.skip(i + 1));
        let c = s.get_char(i);
        if c == sep {
            let seg = s.substring_char(start, i);
            r.push(seg.to_owned());
            assert(r.deep_view() =~= pre.push(cur));
            start = i + 1;
            assert(s@.subrange(start as int, (i + 1) as int) =~= Seq::<char>::empty());
        } else {
            assert(cur.push(s@[i as int]) =~= s@.subrange(start as int, (i + 1) as int));
        }
        i += 1;
    }
    assert(s@.skip(len as int) =~= Seq::<char>::empty());
    let seg = s.substring_char(start, len);
    let ghost pre = r.deep_view();
    r.push(seg.to_owned());
    assert(r.deep_view() =~= pre.push(s@.subrange(start as int, len as int)));
    r
}

/// The characters that separate columns in the utility's tabular output.
pub open spec fn is_space_char(c: char) -> bool {
    c == ' ' || c == '\t' || c == '\r'
}

/// The maximal runs of non-space characters of `s`, processed front to back
/// with the run built so far in `cur` and the finished runs in `acc`.
pub open spec fn split_ws_rec(s: Seq<char>, cur: Seq<char>, acc: Seq<Seq<char>>) -> Seq<Seq<char>>
    decreases s.len(),
{
    if s.len() == 0 {
        if cur.len() == 0 {
            acc
        } else {
            acc.push(cur)
        }
    } else if is_space_char(s[0]) {
        if cur.len() == 0 {
            split_ws_rec(s.drop_first(), Seq::empty(), acc)
        } else {
            split_ws_rec(s.drop_first(), Seq::empty(), acc.push(cur))
        }
    } else {
        split_ws_rec(s.drop_first(), cur.push(s[0]), acc)
    }
}

/// The maximal runs of non-space characters of `s`: the whitespace-separated
/// tokens of a line.
pub open spec fn split_ws(s: Seq<char>) -> Seq<Seq<char>> {
    split_ws_rec(s, Seq::empty(), Seq::empty())
}

/// Decides whether `c` separates columns.
pub fn is_space(c: char) -> (r: bool)
    ensures
        r == is_space_char(c),
{
    c == ' ' || c == '\t' || c == '\r'
}

/// Splits `s` into its whitespace-separated tokens.
pub fn split_whitespace_tokens(s: &str) -> (r: Vec<String>)
    ensures
        r.deep_view() == split_ws(s@),
{
    let len: usize = s.unicode_len();
    let mut r: Vec<String> = Vec::new();
    let mut start: Option<usize> = None;
    let mut i: usize = 0;
    assert(s@.skip(0) =~= s@);
    assert(r.deep_view() =~= Seq::<Seq<char>>::empty());
    while i < len
        invariant
            len == s@.len(),
            i <= len,
            match start {
                Some(st) => st < i && (forall|j: int| st <= j < i ==> !is_space_char(s@[j])),
                None => true,
            },
            split_ws_rec(
                s@.skip(i as int),
                match start {
                    Some(st) => s@.subrange(st as int, i as int),
                    None => Seq::empty(),
                },
                r.deep_view(),
            ) == split_ws(s@),
        decreases len - i,
    {
        let ghost pre = r.deep_view();
        let ghost cur: Seq<char> = match start {
            Some(st) => s@.subrange(st as int, i as int),
            None => Seq::empty(),
        };
        assert(s@.skip(i as int)[0] == s@[i as int]);
        assert(s@.skip(i as int).drop_first() =~= s@.skip(i + 1));
        let c = s.get_char(i);
        if is_space(c) {
            if let Some(st) = start {
                let tok = s.substring_char(st, i);
                r.push(tok.to_owned());
                assert(r.deep_view() =~= pre.push(cur));
                start = None;
            }
        } else {
            match start {
                Some(st) => {
                    assert(cur.push(s@[i as int]) =~= s@.subrange(st as int, (i + 1) as int));
                },
                None => {
                    assert(cur.push(s@[i as int]) =~= s@.subrange(i as int, (i + 1) as int));
                },
            }
            if start.is_none() {
                start = Some(i);
            }
        }
        i += 1;
    }
    assert(s@.skip(len as int) =~= Seq::<char>::empty());
    if let Some(st) = start {
        let tok = s.substring_char(st, len);
        let ghost pre = r.deep_view();
        r.push(tok.to_owned());
        assert(r.deep_view() =~= pre.push(s@.subrange(st as int, len as int)));
    }
    r
}

/// The position of the first token of `toks` equal to `t`, if any.
pub open spec fn find_token(toks: Seq<Seq<char>>, t: Seq<char>) -> Option<int>
    decreases toks.len(),
{
    if toks.len() == 0 {
        None
    } else if toks[0] == t {
        Some(0)
    } else {
        match find_token(toks.drop_first(), t) {
            Some(i) => Some(i + 1),
            None => None,
        }
    }
}

/// `find_token` returns the first position holding `t`, or `None` when no
/// token equals `t`.
pub proof fn lemma_find_token_first(toks: Seq<Seq<char>>, t: Seq<char>)
    ensures
        match find_token(toks, t) {
            Some(i) => 0 <= i < toks.len() && toks[i] == t && (forall|j: int|
                0 <= j < i ==> toks[j] != t),
            None => forall|j: int| 0 <= j < toks.len() ==> toks[j] != t,
        },
    decreases toks.len(),
{
    if toks.len() == 0 {
    } else if toks[0] == t {
    } else {
        lemma_find_token_first(toks.drop_first(), t);
        assert(forall|j: int| 1 <= j < toks.len() ==> toks[j] == toks.drop_first()[j - 1]);
    }
}

/// The position of the first token of `toks` equal to `name`, if any.
pub fn find_token_index(toks: &Vec<String>, name: &str) -> (r: Option<usize>)
    ensures
        match r {
            Some(i) => find_token(toks.deep_view(), name@) == Some(i as int),
            None => find_token(toks.deep_view(), name@) is None,
        },
{
    proof {
        lemma_find_token_first(toks.deep_view(), name@);
    }
    let mut i: usize = 0;
    while i < toks.len()
        invariant
            i <= toks.len(),
            toks.deep_view().len() == toks.len(),
            forall|j: int| 0 <= j < i ==> toks.deep_view()[j] != name@,
            match find_token(toks.deep_view(), name@) {
                Some(k) => 0 <= k < toks.deep_view().len() && toks.deep_view()[k] == name@
                    && (forall|j: int| 0 <= j < k ==> toks.deep_view()[j] != name@),
                None => forall|j: int|
                    0 <= j < toks.deep_view().len() ==> toks.deep_view()[j] != name@,
            },
        decreases toks.len() - i,
    {
        if str_eq(toks[i].as_str(), name) {
            assert(find_token(toks.deep_view(), name@) == Some(i as int)) by {
                match find_token(toks.deep_view(), name@) {
                    Some(k) => {
                        if k < i as int {
                            assert(false);
                        }
                        if k > i as int {
                            assert(toks.deep_view()[i as int] != name@);
                            assert(false);
                        }
                    },
                    None => {
                        assert(toks.deep_view()[i as int] != name@);
                        assert(false);
                    },
                }
            }
            return Some(i);
        }
        i += 1;
    }
    None
}

/// Appends one character to a string.
///
/// Relies on `String::push`: it appends exactly the given character.
#[verifier::external_body]
pub fn push_char(s: &mut String, c: char)
    ensures
        final(s)@ == old(s)@.push(c),
{
    s.push(c)
}

} // verus!
