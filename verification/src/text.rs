//! Character-level string utilities: whitespace classification and
//! prefix matching over the character sequences that `String` and
//! `&str` denote.

use vstd::prelude::*;
use vstd::string::StrSliceExecFns;
use vstd::string::StringExecFns;

verus! {

/// The whitespace characters recognised when a line is split into tokens.
pub open spec fn is_space(c: char) -> bool {
    c == ' ' || c == '\t' || c == '\n' || c == '\r' || c == '\u{0b}' || c == '\u{0c}'
}

/// Executable mirror of `is_space`.
pub fn space_char(c: char) -> (r: bool)
    ensures
        r == is_space(c),
{
    c == ' ' || c == '\t' || c == '\n' || c == '\r' || c == '\u{0b}' || c == '\u{0c}'
}

/// `p` is an initial segment of `s`.
pub open spec fn is_prefix(p: Seq<char>, s: Seq<char>) -> bool {
    p.len() <= s.len() && s.subrange(0, p.len() as int) == p
}

/// The predicate "starts with `f`", as a relation value.
pub open spec fn prefix_pred(f: Seq<char>) -> spec_fn(Seq<char>) -> bool {
    |it: Seq<char>| is_prefix(f, it)
}

/// Character-wise prefix test: does `s` start with `p`?
pub fn starts_with(s: &str, p: &str) -> (r: bool)
    ensures
        r == is_prefix(p@, s@),
{
    let sl = s.unicode_len();
    let pl = p.unicode_len();
    if pl > sl {
        return false;
    }
    let mut i: usize = 0;
    while i < pl
        invariant
            i <= pl,
            pl == p@.len(),
            sl == s@.len(),
            pl <= sl,
            forall|j: int| 0 <= j < i ==> s@[j] == p@[j],
        decreases pl - i,
    {
        if s.get_char(i) != p.get_char(i) {
            proof {
                if is_prefix(p@, s@) {
                    assert(p@[i as int] == s@.subrange(0, p@.len() as int)[i as int]);
                }
            }
            return false;
        }
        i += 1;
    }
    proof {
        assert(s@.subrange(0, pl as int) =~= p@);
    }
    true
}

/// The whitespace-delimited tokens of `s`, in order: maximal runs of
/// non-whitespace characters.
pub open spec fn ws_tokens(s: Seq<char>) -> Seq<Seq<char>>
    decreases s.len(),
{
    if s.len() == 0 {
        Seq::empty()
    } else {
        let t = ws_tokens(s.drop_last());
        let c = s.last();
        if is_space(c) {
            t
        } else if s.len() >= 2 && !is_space(s[s.len() - 2]) {
            t.update(t.len() - 1, t.last().push(c))
        } else {
            t.push(seq![c])
        }
    }
}

/// Split `s` on whitespace into its tokens.
pub fn split_ws(s: &str) -> (r: Vec<String>)
    ensures
        crate::order::views_of(r@) == ws_tokens(s@),
{
    let len = s.unicode_len();
    let mut toks: Vec<String> = Vec::new();
    let mut i: usize = 0;
    let mut start: usize = 0;
    let mut inside: bool = false;
    proof {
        assert(s@.take(0) =~= Seq::<char>::empty());
        assert(crate::order::views_of(toks@) =~= Seq::<Seq<char>>::empty());
    }
    while i < len
        invariant
            i <= len,
            len == s@.len(),
            !inside ==> crate::order::views_of(toks@) == ws_tokens(s@.take(i as int)),
            !inside ==> (i == 0 || is_space(s@[i as int - 1])),
            inside ==> start < i,
            inside ==> (start == 0 || is_space(s@[start as int - 1])),
            inside ==> forall|k: int| start <= k < i ==> !is_space(#[trigger] s@[k]),
            inside ==> crate::order::views_of(toks@).push(s@.subrange(start as int, i as int))
                == ws_tokens(s@.take(i as int)),
        decreases len - i,
    {
        let ghost pi = s@.take(i as int);
        let ghost pn = s@.take(i as int + 1);
        proof {
            assert(pn.drop_last() =~= pi);
            assert(pn.last() == s@[i as int]);
        }
        let c = s.get_char(i);
        if space_char(c) {
            if inside {
                let t = s.substring_char(start, i);
                toks.push(t.to_owned());
                inside = false;
                proof {
                    assert(t@ == s@.subrange(start as int, i as int));
                    assert(crate::order::views_of(toks@) =~= ws_tokens(pi));
                }
            }
            proof {
                assert(ws_tokens(pn) == ws_tokens(pi));
            }
        } else {
            if !inside {
                start = i;
                inside = true;
                proof {
                    // a fresh token of one character begins here
                    if pn.len() >= 2 {
                        assert(pn[pn.len() - 2] == s@[i as int - 1]);
                    }
                    assert(ws_tokens(pn) == ws_tokens(pi).push(seq![s@[i as int]]));
                    assert(s@.subrange(i as int, i as int + 1) =~= seq![s@[i as int]]);
                }
            } else {
                proof {
                    // the open token grows by one character
                    assert(pn.len() >= 2);
                    assert(pn[pn.len() - 2] == s@[i as int - 1]);
                    assert(!is_space(s@[i as int - 1]));
                    let t = ws_tokens(pi);
                    assert(ws_tokens(pn) == t.update(t.len() - 1, t.last().push(s@[i as int])));
                    let vs = crate::order::views_of(toks@);
                    assert(t == vs.push(s@.subrange(start as int, i as int)));
                    assert(t.last() == s@.subrange(start as int, i as int));
                    assert(t.update(t.len() - 1, t.last().push(s@[i as int])) =~= vs.push(
                        s@.subrange(start as int, i as int).push(s@[i as int]),
                    ));
                    assert(s@.subrange(start as int, i as int).push(s@[i as int]) =~= s@.subrange(
                        start as int,
                        i as int + 1,
                    ));
                }
            }
        }
        i += 1;
    }
    proof {
        assert(s@.take(len as int) =~= s@);
    }
    if inside {
        let t = s.substring_char(start, len);
        toks.push(t.to_owned());
        proof {
            assert(t@ == s@.subrange(start as int, len as int));
            assert(crate::order::views_of(toks@) =~= ws_tokens(s@));
        }
    }
    toks
}

/// `pat` occurs in `s` starting at position `i`.
pub open spec fn occurs_at(s: Seq<char>, pat: Seq<char>, i: int) -> bool {
    0 <= i && i + pat.len() <= s.len() && s.subrange(i, i + pat.len()) == pat
}

/// The first position at or after `from` where `pat` occurs in `s`.
pub open spec fn first_match(s: Seq<char>, pat: Seq<char>, from: int) -> Option<int>
    decreases s.len() - from,
{
    if from < 0 || from + pat.len() > s.len() {
        None
    } else if pat.len() == 0 {
        Some(from)
    } else if occurs_at(s, pat, from) {
        Some(from)
    } else {
        first_match(s, pat, from + 1)
    }
}

/// What `first_match` promises about its result.
pub proof fn lemma_first_match_bounds(s: Seq<char>, pat: Seq<char>, from: int)
    requires
        0 <= from,
    ensures
        match first_match(s, pat, from) {
            Option::Some(i) => from <= i && i + pat.len() <= s.len() && occurs_at(s, pat, i)
                && forall|j: int| from <= j < i ==> !occurs_at(s, pat, j),
            Option::None => forall|j: int| from <= j ==> !occurs_at(s, pat, j),
        },
    decreases s.len() - from,
{
    if from + pat.len() > s.len() {
        assert forall|j: int| from <= j implies !occurs_at(s, pat, j) by {}
    } else if pat.len() == 0 {
        assert(s.subrange(from, from) =~= pat);
    } else if occurs_at(s, pat, from) {
    } else {
        lemma_first_match_bounds(s, pat, from + 1);
    }
}

/// Does `pat` occur in `s` at position `i`?
fn check_occurs(s: &str, pat: &str, i: usize) -> (r: bool)
    requires
        i + pat@.len() <= s@.len(),
    ensures
        r == occurs_at(s@, pat@, i as int),
{
    let sl = s.unicode_len();
    let pl = pat.unicode_len();
    let mut k: usize = 0;
    while k < pl
        invariant
            k <= pl,
            pl == pat@.len(),
            sl == s@.len(),
            i + pl <= sl,
            forall|j: int| 0 <= j < k ==> s@[i + j] == pat@[j],
        decreases pl - k,
    {
        if s.get_char(i + k) != pat.get_char(k) {
            proof {
                if occurs_at(s@, pat@, i as int) {
                    assert(s@.subrange(i as int, i + pat@.len())[k as int] == pat@[k as int]);
                }
            }
            return false;
        }
        k += 1;
    }
    proof {
        assert(s@.subrange(i as int, i + pat@.len()) =~= pat@);
    }
    true
}

/// Find the first occurrence of `pat` in `s` at or after `from`.
pub fn find_from(s: &str, pat: &str, from: usize) -> (r: Option<usize>)
    ensures
        match r {
            Option::Some(i) => first_match(s@, pat@, from as int) == Some(i as int),
            Option::None => first_match(s@, pat@, from as int) is None,
        },
{
    let sl = s.unicode_len();
    let pl = pat.unicode_len();
    let mut i: usize = from;
    loop
        invariant
            from <= i,
            sl == s@.len(),
            pl == pat@.len(),
            first_match(s@, pat@, from as int) == first_match(s@, pat@, i as int),
        decreases sl + 1 - i,
    {
        if pl > sl || i > sl - pl {
            proof {
                assert(i + pl > sl);
            }
            return None;
        }
        if check_occurs(s, pat, i) {
            return Some(i);
        }
        proof {
            if pl == 0 {
                assert(s@.subrange(i as int, i as int) =~= pat@);
            }
        }
        i += 1;
    }
}

/// `s` with every occurrence of `pat` (left to right, non-overlapping)
/// replaced by `rep`; an empty `pat` leaves `s` unchanged.
pub open spec fn replace_all_spec(s: Seq<char>, pat: Seq<char>, rep: Seq<char>) -> Seq<char>
    decreases s.len(),
{
    if pat.len() == 0 {
        s
    } else {
        match first_match(s, pat, 0) {
            Option::None => s,
            Option::Some(i) => if 0 <= i && i + pat.len() <= s.len() {
                s.subrange(0, i) + rep + replace_all_spec(s.skip(i + pat.len()), pat, rep)
            } else {
                s
            },
        }
    }
}

/// `s` with its first occurrence of `pat` (if any) replaced by `rep`.
pub open spec fn replace_first_spec(s: Seq<char>, pat: Seq<char>, rep: Seq<char>) -> Seq<char> {
    match first_match(s, pat, 0) {
        Option::None => s,
        Option::Some(i) => s.subrange(0, i) + rep + s.skip(i + pat.len()),
    }
}

/// Replace every occurrence of `pat` in `s` by `rep`, scanning left to
/// right over text not yet produced.
pub fn replace_all(s: &str, pat: &str, rep: &str) -> (r: String)
    ensures
        r@ == replace_all_spec(s@, pat@, rep@),
{
    if pat.unicode_len() == 0 {
        return s.to_owned();
    }
    let mut out = String::new();
    let mut rest = s.to_owned();
    proof {
        assert(out@ + replace_all_spec(rest@, pat@, rep@) =~= replace_all_spec(
            s@,
            pat@,
            rep@,
        ));
    }
    loop
        invariant
            pat@.len() > 0,
            replace_all_spec(s@, pat@, rep@) == out@ + replace_all_spec(rest@, pat@, rep@),
        decreases rest@.len(),
    {
        match find_from(rest.as_str(), pat, 0) {
            None => {
                proof {
                    assert(replace_all_spec(rest@, pat@, rep@) == rest@);
                }
                out.append(rest.as_str());
                return out;
            },
            Some(i) => {
                proof {
                    lemma_first_match_bounds(rest@, pat@, 0);
                }
                let rl = rest.unicode_len();
                let pl = pat.unicode_len();
                let ghost prev_out = out@;
                let ghost prev_rest = rest@;
                let head = rest.as_str().substring_char(0, i);
                out.append(head);
                out.append(rep);
                let tail = rest.as_str().substring_char(i + pl, rl);
                let next = tail.to_owned();
                rest = next;
                proof {
                    assert(rest@ == prev_rest.skip(i + pat@.len()));
                    assert(replace_all_spec(prev_rest, pat@, rep@) == prev_rest.subrange(0, i as int)
                        + rep@ + replace_all_spec(rest@, pat@, rep@));
                    assert(out@ + replace_all_spec(rest@, pat@, rep@) =~= prev_out
                        + replace_all_spec(prev_rest, pat@, rep@));
                }
            },
        }
    }
}

/// Replace the first occurrence of `pat` in `s` by `rep`, if there is one.
pub fn replace_first(s: &str, pat: &str, rep: &str) -> (r: String)
    ensures
        r@ == replace_first_spec(s@, pat@, rep@),
{
    match find_from(s, pat, 0) {
        None => s.to_owned(),
        Some(i) => {
            proof {
                lemma_first_match_bounds(s@, pat@, 0);
            }
            let sl = s.unicode_len();
            let pl = pat.unicode_len();
            let mut out = s.substring_char(0, i).to_owned();
            out.append(rep);
            out.append(s.substring_char(i + pl, sl));
            out
        },
    }
}

/// Character-wise string equality.
pub fn eq_str(a: &str, b: &str) -> (r: bool)
    ensures
        r == (a@ == b@),
{
    let al = a.unicode_len();
    let bl = b.unicode_len();
    if al != bl {
        return false;
    }
    let r = starts_with(a, b);
    proof {
        assert(a@.subrange(0, b@.len() as int) =~= a@);
    }
    r
}

/// Does `pat` occur anywhere in `s`?
pub fn contains_sub(s: &str, pat: &str) -> (r: bool)
    ensures
        r == (first_match(s@, pat@, 0) is Some),
{
    match find_from(s, pat, 0) {
        Some(_) => true,
        None => false,
    }
}

/// A lone `~`, or a leading `~/`, expanded with the given home
/// directory; everything else — and everything when no home is known —
/// passes through unchanged.
pub open spec fn tilde_expanded(s: Seq<char>, home: Option<Seq<char>>) -> Seq<char> {
    match home {
        Option::None => s,
        Option::Some(h) => if s == seq!['~'] {
            h
        } else if s.len() >= 2 && s[0] == '~' && s[1] == '/' {
            h + s.skip(1)
        } else {
            s
        },
    }
}

/// Expand a leading tilde against the home directory, if one is known.
pub fn expand_tilde(s: &str, home: Option<&String>) -> (r: String)
    ensures
        r@ == tilde_expanded(
            s@,
            match home {
                Option::Some(h) => Option::Some(h@),
                Option::None => Option::None,
            },
        ),
{
    match home {
        Option::None => s.to_owned(),
        Option::Some(h) => {
            let len = s.unicode_len();
            if len == 0 {
                return s.to_owned();
            }
            let c0 = s.get_char(0);
            if c0 != '~' {
                proof {
                    if s@ == seq!['~'] {
                        assert(s@[0] == '~');
                    }
                }
                return s.to_owned();
            }
            if len == 1 {
                proof {
                    assert(s@ =~= seq!['~']);
                }
                return h.clone();
            }
            let c1 = s.get_char(1);
            if c1 == '/' {
                let mut out = h.clone();
                out.append(s.substring_char(1, len));
                proof {
                    assert(out@ =~= h@ + s@.skip(1));
                }
                out
            } else {
                proof {
                    if s@ == seq!['~'] {
                        assert(s@.len() == 1);
                    }
                }
                s.to_owned()
            }
        },
    }
}

} // verus!
