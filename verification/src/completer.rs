//! The completion engine: classify the cursor context of a command
//! line, turn raw environment listings into candidate lists, filter
//! them by the typed prefix, and map a menu outcome back onto the
//! line.  The surrounding program supplies the listings (search-path
//! directories, directory entries) and performs the I/O.

use vstd::prelude::*;
use crate::order::lemma_distinct_same_members_multiset;
use crate::order::lemma_filter_membership;
use crate::order::lemma_filter_no_duplicates;
use crate::order::lemma_filter_sorted;
use crate::order::lemma_sorted_multiset_unique;
use crate::order::sort_strings;
use crate::order::strings_sorted;
use crate::order::views_of;
use crate::text::is_prefix;
use crate::text::is_space;
use crate::text::prefix_pred;
use crate::text::split_ws;
use crate::text::starts_with;
use crate::text::ws_tokens;
use vstd::string::StrSliceExecFns;

verus! {

/// One completion option: the text shown in lists and the text spliced
/// into the line.  They are equal for every source here, but are kept
/// apart because directory candidates carry a trailing separator that
/// a different source might not want inserted verbatim.
#[derive(Clone)]
pub struct Candidate {
    pub display: String,
    pub replacement: String,
}

/// A directory entry as the surrounding program reports it.
#[derive(Clone)]
pub struct FsEntry {
    pub name: String,
    pub is_dir: bool,
}

/// The display texts of a candidate list.
pub open spec fn displays_of(s: Seq<Candidate>) -> Seq<Seq<char>> {
    s.map_values(|c: Candidate| c.display@)
}

/// A shell metacharacter that rules out path completion for a token.
pub open spec fn is_shell_meta(c: char) -> bool {
    c == '|' || c == '&' || c == ';'
}

/// The token holds at least one shell metacharacter.
pub open spec fn has_metachar(t: Seq<char>) -> bool {
    exists|i: int| 0 <= i < t.len() && is_shell_meta(t[i])
}

/// Scan a token for shell metacharacters.
fn contains_metachar(t: &str) -> (r: bool)
    ensures
        r == has_metachar(t@),
{
    let len = t.unicode_len();
    let mut i: usize = 0;
    while i < len
        invariant
            i <= len,
            len == t@.len(),
            forall|j: int| 0 <= j < i ==> !is_shell_meta(t@[j]),
        decreases len - i,
    {
        let c = t.get_char(i);
        if c == '|' || c == '&' || c == ';' {
            return true;
        }
        i += 1;
    }
    false
}

/// Path completion applies when the line has a token, does not end in
/// whitespace (the cursor sits inside a token), and that token holds
/// no shell metacharacter.  Otherwise the whole line is treated as a
/// command-name prefix.
pub open spec fn path_mode(line: Seq<char>) -> bool {
    &&& ws_tokens(line).len() > 0
    &&& line.len() > 0
    &&& !is_space(line.last())
    &&& !has_metachar(ws_tokens(line).last())
}

/// The prefix the engine completes: the last token in path mode, the
/// entire line otherwise.  Using the whole line as a command prefix is
/// deliberately loose: it matches only first-token commands, and lines
/// holding metacharacters simply yield no candidates.
pub open spec fn completion_prefix(line: Seq<char>) -> Seq<char> {
    if path_mode(line) {
        ws_tokens(line).last()
    } else {
        line
    }
}

/// `name` occurs in one of the per-directory listings.
pub open spec fn occurs_in_listings(listings: Seq<Vec<String>>, name: Seq<char>) -> bool {
    exists|d: int| 0 <= d < listings.len() && views_of(#[trigger] listings[d]@).contains(name)
}

/// Appending one listing extends the occurrence relation pointwise.
proof fn lemma_occurs_push(listings: Seq<Vec<String>>, l: Vec<String>, name: Seq<char>)
    ensures
        occurs_in_listings(listings.push(l), name) <==> (occurs_in_listings(listings, name)
            || views_of(l@).contains(name)),
{
    let ext = listings.push(l);
    if occurs_in_listings(ext, name) {
        let d = choose|d: int| 0 <= d < ext.len() && views_of(ext[d]@).contains(name);
        if d < listings.len() {
            assert(ext[d] == listings[d]);
            assert(occurs_in_listings(listings, name));
        } else {
            assert(ext[d] == l);
        }
    }
    if occurs_in_listings(listings, name) {
        let d = choose|d: int| 0 <= d < listings.len() && views_of(listings[d]@).contains(name);
        assert(ext[d] == listings[d]);
        assert(occurs_in_listings(ext, name));
    }
    if views_of(l@).contains(name) {
        assert(ext[listings.len() as int] == l);
        assert(occurs_in_listings(ext, name));
    }
}

/// Is `x` one of the strings of `v`?
fn contains_string(v: &Vec<String>, x: &str) -> (r: bool)
    ensures
        r == views_of(v@).contains(x@),
{
    let n = v.len();
    let mut i: usize = 0;
    while i < n
        invariant
            i <= n,
            n == v@.len(),
            forall|j: int| 0 <= j < i ==> views_of(v@)[j] != x@,
        decreases n - i,
    {
        if crate::text::eq_str(v[i].as_str(), x) {
            proof {
                assert(views_of(v@)[i as int] == x@);
            }
            return true;
        }
        i += 1;
    }
    false
}

/// The completion engine.  It holds no state of its own: candidate
/// lists are recomputed from fresh listings on every request.
#[derive(Clone)]
pub struct ShellCompleter {}

impl ShellCompleter {
    /// A fresh completer.
    pub fn new() -> (r: Self) {
        ShellCompleter {  }
    }

    /// Whether the cursor context of `line` calls for path completion.
    pub fn should_complete_path(&self, line: &str) -> (r: bool)
        ensures
            r == path_mode(line@),
    {
        let len = line.unicode_len();
        if len == 0 {
            proof {
                assert(ws_tokens(line@).len() == 0);
            }
            return false;
        }
        let lastc = line.get_char(len - 1);
        if crate::text::space_char(lastc) {
            return false;
        }
        let toks = split_ws(line);
        if toks.len() == 0 {
            return false;
        }
        let last = &toks[toks.len() - 1];
        proof {
            assert(views_of(toks@)[toks@.len() - 1] == ws_tokens(line@).last());
        }
        !contains_metachar(last.as_str())
    }

    /// The prefix to complete for `line` (see `completion_prefix`).
    pub fn complete_prefix(&self, line: &str) -> (r: String)
        ensures
            r@ == completion_prefix(line@),
    {
        if self.should_complete_path(line) {
            let toks = split_ws(line);
            proof {
                assert(ws_tokens(line@).len() > 0);
                assert(views_of(toks@)[toks@.len() - 1] == ws_tokens(line@).last());
            }
            let last = toks[toks.len() - 1].clone();
            last
        } else {
            line.to_owned()
        }
    }

    /// All command names visible in the given search-path listings,
    /// one listing per directory in search order: duplicates removed,
    /// sorted ascending.
    pub fn get_all_commands(&self, listings: &Vec<Vec<String>>) -> (r: Vec<String>)
        ensures
            strings_sorted(views_of(r@)),
            views_of(r@).no_duplicates(),
            forall|name: Seq<char>| #[trigger]
                views_of(r@).contains(name) <==> occurs_in_listings(listings@, name),
    {
        let nd = listings.len();
        let mut found: Vec<String> = Vec::new();
        let mut d: usize = 0;
        proof {
            assert(listings@.take(0) =~= Seq::<Vec<String>>::empty());
            assert(views_of(found@) =~= Seq::<Seq<char>>::empty());
            assert forall|name: Seq<char>| #[trigger]
                views_of(found@).contains(name) <==> occurs_in_listings(
                listings@.take(0),
                name,
            ) by {
                if occurs_in_listings(listings@.take(0), name) {
                    let w = choose|w: int|
                        0 <= w < listings@.take(0).len() && views_of(
                            listings@.take(0)[w]@,
                        ).contains(name);
                }
            }
        }
        while d < nd
            invariant
                d <= nd,
                nd == listings@.len(),
                views_of(found@).no_duplicates(),
                forall|name: Seq<char>| #[trigger]
                    views_of(found@).contains(name) <==> occurs_in_listings(
                    listings@.take(d as int),
                    name,
                ),
            decreases nd - d,
        {
            let inner = &listings[d];
            let ne = inner.len();
            let mut e: usize = 0;
            while e < ne
                invariant
                    e <= ne,
                    d < nd,
                    nd == listings@.len(),
                    ne == inner@.len(),
                    inner == listings@[d as int],
                    views_of(found@).no_duplicates(),
                    forall|name: Seq<char>| #[trigger]
                        views_of(found@).contains(name) <==> (occurs_in_listings(
                        listings@.take(d as int),
                        name,
                    ) || views_of(inner@).take(e as int).contains(name)),
                decreases ne - e,
            {
                let nm = &inner[e];
                let ghost before = views_of(found@);
                let present = contains_string(&found, nm.as_str());
                if !present {
                    found.push(nm.clone());
                }
                proof {
                    let now = views_of(found@);
                    let ghost tk = views_of(inner@).take(e as int);
                    let ghost tn = views_of(inner@).take(e as int + 1);
                    assert(tn =~= tk.push(nm@));
                    if !present {
                        assert(now =~= before.push(nm@));
                        assert forall|name: Seq<char>| #[trigger]
                            now.contains(name) <==> (occurs_in_listings(
                            listings@.take(d as int),
                            name,
                        ) || tn.contains(name)) by {
                            if now.contains(name) {
                                let w = choose|w: int| 0 <= w < now.len() && now[w] == name;
                                if w < before.len() {
                                    assert(before[w] == name);
                                    assert(before.contains(name));
                                } else {
                                    assert(name == nm@);
                                    assert(tn[e as int] == nm@);
                                    assert(tn.contains(nm@));
                                }
                            }
                            if occurs_in_listings(listings@.take(d as int), name) {
                                assert(before.contains(name));
                                let w = choose|w: int|
                                    0 <= w < before.len() && before[w] == name;
                                assert(now[w] == name);
                            }
                            if tn.contains(name) {
                                let w = choose|w: int| 0 <= w < tn.len() && tn[w] == name;
                                if w < e {
                                    assert(tk[w] == name);
                                    assert(tk.contains(name));
                                    assert(before.contains(name));
                                    let u = choose|u: int|
                                        0 <= u < before.len() && before[u] == name;
                                    assert(now[u] == name);
                                } else {
                                    assert(name == nm@);
                                    assert(now[before.len() as int] == nm@);
                                }
                            }
                        }
                        assert(now.no_duplicates()) by {
                            assert(forall|j: int|
                                0 <= j < before.len() ==> now[j] == #[trigger] before[j]);
                            assert(now[now.len() - 1] == nm@);
                            assert(!before.contains(nm@));
                            assert forall|i2: int, j2: int|
                                (0 <= i2 < now.len() && 0 <= j2 < now.len() && i2 != j2)
                                    implies #[trigger] now[i2] != #[trigger] now[j2] by {
                                if i2 < before.len() && j2 < before.len() {
                                } else if i2 == now.len() - 1 {
                                    if now[j2] == nm@ {
                                        assert(before[j2] == nm@);
                                        assert(before.contains(nm@));
                                    }
                                } else if j2 == now.len() - 1 {
                                    if now[i2] == nm@ {
                                        assert(before[i2] == nm@);
                                        assert(before.contains(nm@));
                                    }
                                }
                            }
                        }
                    } else {
                        assert forall|name: Seq<char>| #[trigger]
                            now.contains(name) <==> (occurs_in_listings(
                            listings@.take(d as int),
                            name,
                        ) || tn.contains(name)) by {
                            if tn.contains(name) {
                                let w = choose|w: int| 0 <= w < tn.len() && tn[w] == name;
                                if w < e {
                                    assert(tk[w] == name);
                                    assert(tk.contains(name));
                                } else {
                                    assert(name == nm@);
                                }
                            }
                        }
                    }
                }
                e += 1;
            }
            proof {
                let ghost tkd = listings@.take(d as int);
                let ghost tnd = listings@.take(d as int + 1);
                assert(tnd =~= tkd.push(listings@[d as int]));
                assert(views_of(inner@).take(ne as int) =~= views_of(inner@));
                assert forall|name: Seq<char>| #[trigger]
                    views_of(found@).contains(name) <==> occurs_in_listings(tnd, name) by {
                    lemma_occurs_push(tkd, listings@[d as int], name);
                }
            }
            d += 1;
        }
        proof {
            assert(listings@.take(nd as int) =~= listings@);
        }
        let ghost pre_sort = views_of(found@);
        let r = sort_strings(found);
        proof {
            let now = views_of(r@);
            pre_sort.to_multiset_ensures();
            now.to_multiset_ensures();
            assert forall|name: Seq<char>| #[trigger]
                now.contains(name) <==> occurs_in_listings(listings@, name) by {
                assert(now.contains(name) <==> now.to_multiset().count(name) > 0);
                assert(pre_sort.contains(name) <==> pre_sort.to_multiset().count(name) > 0);
            }
            assert(now.no_duplicates()) by {
                pre_sort.lemma_multiset_has_no_duplicates();
                now.lemma_multiset_has_no_duplicates_conv();
            }
        }
        r
    }

    /// The commands that start with `prefix`, as candidates whose
    /// replacement equals their display text.
    pub fn filter_commands(&self, commands: &Vec<String>, prefix: &str) -> (r: Vec<Candidate>)
        ensures
            displays_of(r@) == views_of(commands@).filter(prefix_pred(prefix@)),
            forall|i: int|
                0 <= i < r@.len() ==> (#[trigger] r@[i]).replacement@ == r@[i].display@,
    {
        let ghost pred = prefix_pred(prefix@);
        let n = commands.len();
        let mut out: Vec<Candidate> = Vec::new();
        let mut i: usize = 0;
        proof {
            assert(views_of(commands@).take(0) =~= Seq::<Seq<char>>::empty());
            assert(displays_of(out@) =~= Seq::<Seq<char>>::empty());
            assert(Seq::<Seq<char>>::empty().filter(pred) == Seq::<Seq<char>>::empty()) by {
                reveal(Seq::filter);
            }
        }
        while i < n
            invariant
                i <= n,
                n == commands@.len(),
                pred == prefix_pred(prefix@),
                displays_of(out@) == views_of(commands@).take(i as int).filter(pred),
                forall|k: int|
                    0 <= k < out@.len() ==> (#[trigger] out@[k]).replacement@ == out@[k].display@,
            decreases n - i,
        {
            let ghost elem = views_of(commands@)[i as int];
            let ghost tk = views_of(commands@).take(i as int);
            let ghost tn = views_of(commands@).take(i as int + 1);
            proof {
                assert(tn =~= tk.push(elem));
                tk.lemma_filter_push(elem, pred);
            }
            let cmd = &commands[i];
            if starts_with(cmd.as_str(), prefix) {
                out.push(Candidate { display: cmd.clone(), replacement: cmd.clone() });
                proof {
                    assert(cmd@ == elem);
                    assert(pred(elem));
                    assert(displays_of(out@) =~= tk.filter(pred).push(elem));
                }
            } else {
                proof {
                    assert(cmd@ == elem);
                    assert(!pred(elem));
                }
            }
            i += 1;
        }
        proof {
            assert(views_of(commands@).take(n as int) =~= views_of(commands@));
        }
        out
    }
}

/// Where the final path segment of `p` begins: just after the last
/// separator, or at the start when there is none.
pub open spec fn split_point(p: Seq<char>) -> int
    decreases p.len(),
{
    if p.len() == 0 {
        0
    } else if p.last() == '/' {
        p.len() as int
    } else {
        split_point(p.drop_last())
    }
}

/// With no separator at or after `j`, the split point is decided by
/// the first `j` characters.
proof fn lemma_split_point_tail(p: Seq<char>, j: int)
    requires
        0 <= j <= p.len(),
        forall|k: int| j <= k < p.len() ==> p[k] != '/',
    ensures
        split_point(p) == split_point(p.take(j)),
    decreases p.len() - j,
{
    if j < p.len() {
        assert(p.last() != '/');
        assert(p.drop_last() =~= p.take(p.len() - 1));
        lemma_split_point_tail(p.take(p.len() - 1), j);
        assert(p.take(p.len() - 1).take(j) =~= p.take(j));
    } else {
        assert(p.take(j) =~= p);
    }
}

impl ShellCompleter {
    /// Split a path-shaped prefix into the directory part (up to and
    /// including the last separator) and the final segment after it.
    /// The surrounding program joins the directory part onto the
    /// working directory and lists it; the segment filters the names.
    pub fn split_path_prefix(&self, prefix: &str) -> (r: (String, String))
        ensures
            r.0@ == prefix@.take(split_point(prefix@)),
            r.1@ == prefix@.skip(split_point(prefix@)),
    {
        let len = prefix.unicode_len();
        let mut i: usize = len;
        while i > 0
            invariant
                i <= len,
                len == prefix@.len(),
                forall|k: int| i <= k < len ==> prefix@[k] != '/',
            decreases i,
        {
            let c = prefix.get_char(i - 1);
            if c == '/' {
                proof {
                    lemma_split_point_tail(prefix@, i as int);
                    assert(prefix@.take(i as int).last() == '/');
                    assert(split_point(prefix@.take(i as int)) == i as int);
                }
                let dir = prefix.substring_char(0, i).to_owned();
                let seg = prefix.substring_char(i, len).to_owned();
                proof {
                    assert(dir@ =~= prefix@.take(i as int));
                    assert(seg@ =~= prefix@.skip(i as int));
                }
                return (dir, seg);
            }
            i -= 1;
        }
        proof {
            lemma_split_point_tail(prefix@, 0);
            assert(prefix@.take(0) =~= Seq::<char>::empty());
            assert(split_point(prefix@) == 0);
        }
        let dir = String::new();
        let seg = prefix.to_owned();
        proof {
            assert(seg@ =~= prefix@.skip(0));
        }
        (dir, seg)
    }
}

/// The display text of a directory entry: its name, with a trailing
/// separator when the entry is a directory.
pub open spec fn entry_display(e: FsEntry) -> Seq<char> {
    if e.is_dir {
        e.name@ + seq!['/']
    } else {
        e.name@
    }
}

/// The predicate "entry name starts with `stem`".
pub open spec fn entry_pred(stem: Seq<char>) -> spec_fn(FsEntry) -> bool {
    |e: FsEntry| is_prefix(stem, e.name@)
}

/// The display texts of the entries whose name starts with `stem`, in
/// listing order.
pub open spec fn path_displays(entries: Seq<FsEntry>, stem: Seq<char>) -> Seq<Seq<char>> {
    entries.filter(entry_pred(stem)).map_values(|e: FsEntry| entry_display(e))
}

impl ShellCompleter {
    /// Path candidates for the given directory entries and final
    /// segment: matching names, directories suffixed with a separator,
    /// sorted ascending by display text.
    pub fn complete_paths(&self, entries: &Vec<FsEntry>, stem: &str) -> (r: Vec<Candidate>)
        ensures
            strings_sorted(displays_of(r@)),
            displays_of(r@).to_multiset() == path_displays(entries@, stem@).to_multiset(),
            forall|i: int|
                0 <= i < r@.len() ==> (#[trigger] r@[i]).replacement@ == r@[i].display@,
    {
        proof {
            reveal_strlit("/");
        }
        let ghost pred = entry_pred(stem@);
        let ghost disp = |e: FsEntry| entry_display(e);
        let n = entries.len();
        let mut displays: Vec<String> = Vec::new();
        let mut i: usize = 0;
        proof {
            assert(entries@.take(0) =~= Seq::<FsEntry>::empty());
            assert(views_of(displays@) =~= Seq::<Seq<char>>::empty());
            assert(Seq::<FsEntry>::empty().filter(pred) == Seq::<FsEntry>::empty()) by {
                reveal(Seq::filter);
            }
            assert(Seq::<FsEntry>::empty().filter(pred).map_values(disp)
                =~= Seq::<Seq<char>>::empty());
        }
        while i < n
            invariant
                i <= n,
                n == entries@.len(),
                pred == entry_pred(stem@),
                disp == (|e: FsEntry| entry_display(e)),
                views_of(displays@) == entries@.take(i as int).filter(pred).map_values(disp),
            decreases n - i,
        {
            let ghost elem = entries@[i as int];
            let ghost tk = entries@.take(i as int);
            let ghost tn = entries@.take(i as int + 1);
            proof {
                assert(tn =~= tk.push(elem));
                tk.lemma_filter_push(elem, pred);
            }
            let entry = &entries[i];
            if starts_with(entry.name.as_str(), stem) {
                let mut dtext = entry.name.clone();
                if entry.is_dir {
                    dtext.append("/");
                }
                displays.push(dtext);
                proof {
                    reveal_strlit("/");
                    assert(pred(elem));
                    assert("/"@ =~= seq!['/']);
                    assert(dtext@ == entry_display(elem));
                    assert(tn.filter(pred) == tk.filter(pred).push(elem));
                    assert(tn.filter(pred).map_values(disp) =~= tk.filter(pred).map_values(
                        disp,
                    ).push(entry_display(elem)));
                    assert(views_of(displays@) =~= tk.filter(pred).map_values(disp).push(
                        entry_display(elem),
                    ));
                }
            } else {
                proof {
                    assert(!pred(elem));
                }
            }
            i += 1;
        }
        proof {
            assert(entries@.take(n as int) =~= entries@);
        }
        let ghost pre_sort = views_of(displays@);
        let sorted = sort_strings(displays);
        let m = sorted.len();
        let mut out: Vec<Candidate> = Vec::new();
        let mut k: usize = 0;
        proof {
            assert(displays_of(out@) =~= Seq::<Seq<char>>::empty());
            assert(views_of(sorted@).take(0) =~= Seq::<Seq<char>>::empty());
        }
        while k < m
            invariant
                k <= m,
                m == sorted@.len(),
                strings_sorted(views_of(sorted@)),
                views_of(sorted@).to_multiset() == pre_sort.to_multiset(),
                displays_of(out@) == views_of(sorted@).take(k as int),
                forall|j: int|
                    0 <= j < out@.len() ==> (#[trigger] out@[j]).replacement@ == out@[j].display@,
            decreases m - k,
        {
            let s = &sorted[k];
            let ghost before = out@;
            out.push(Candidate { display: s.clone(), replacement: s.clone() });
            proof {
                assert(out@ =~= before.push(out@[out@.len() - 1]));
                assert(out@[out@.len() - 1].display@ == views_of(sorted@)[k as int]);
                assert(displays_of(out@) =~= displays_of(before).push(
                    out@[out@.len() - 1].display@,
                ));
                assert(displays_of(out@) =~= views_of(sorted@).take(k as int + 1));
            }
            k += 1;
        }
        proof {
            assert(views_of(sorted@).take(m as int) =~= views_of(sorted@));
            assert(displays_of(out@) == views_of(sorted@));
        }
        out
    }

    /// The menu is wanted exactly when more than one candidate remains.
    pub fn menu_wanted(&self, candidates: &Vec<Candidate>) -> (r: bool)
        ensures
            r == (candidates@.len() > 1),
    {
        candidates.len() > 1
    }

    /// Map the menu outcome back onto the line: the replacement starts
    /// where the prefix began, and a confirmed choice collapses the
    /// candidate set to that single item while a cancelled menu leaves
    /// it untouched.
    pub fn resolve(
        &self,
        pos: usize,
        prefix_len: usize,
        candidates: Vec<Candidate>,
        choice: Option<String>,
    ) -> (r: (usize, Vec<Candidate>))
        requires
            prefix_len <= pos,
        ensures
            r.0 == pos - prefix_len,
            match choice {
                Option::Some(s) => r.1@.len() == 1 && r.1@[0].display@ == s@ && r.1@[0].replacement@
                    == s@,
                Option::None => r.1 == candidates,
            },
    {
        let start = pos - prefix_len;
        match choice {
            Option::Some(s) => {
                let mut one: Vec<Candidate> = Vec::new();
                one.push(Candidate { display: s.clone(), replacement: s });
                (start, one)
            },
            Option::None => (start, candidates),
        }
    }
}

/// Filtering the listed executables by any prefix returns exactly the
/// names that occur in some search-path listing and start with the
/// prefix — each once, in ascending order.
pub proof fn lemma_filtered_executables(
    listings: Seq<Vec<String>>,
    cmds: Seq<Seq<char>>,
    p: Seq<char>,
)
    requires
        strings_sorted(cmds),
        cmds.no_duplicates(),
        forall|name: Seq<char>| #[trigger] cmds.contains(name) <==> occurs_in_listings(
            listings,
            name,
        ),
    ensures
        strings_sorted(cmds.filter(prefix_pred(p))),
        cmds.filter(prefix_pred(p)).no_duplicates(),
        forall|name: Seq<char>| #[trigger]
            cmds.filter(prefix_pred(p)).contains(name) <==> (occurs_in_listings(listings, name)
                && is_prefix(p, name)),
{
    lemma_filter_sorted(cmds, prefix_pred(p));
    lemma_filter_no_duplicates(cmds, prefix_pred(p));
    lemma_filter_membership(cmds, prefix_pred(p));
    assert forall|name: Seq<char>| #[trigger]
        cmds.filter(prefix_pred(p)).contains(name) <==> (occurs_in_listings(listings, name)
            && is_prefix(p, name)) by {
        assert(prefix_pred(p)(name) == is_prefix(p, name));
        assert(cmds.filter(prefix_pred(p)).contains(name) <==> (cmds.contains(name)
            && prefix_pred(p)(name)));
        assert(cmds.contains(name) <==> occurs_in_listings(listings, name));
    }
}

/// Idempotence for command completion: the contract of
/// `get_all_commands` pins its result uniquely, so two runs over the
/// same listings return the same list.
pub proof fn lemma_commands_idempotent(
    listings: Seq<Vec<String>>,
    r1: Seq<Seq<char>>,
    r2: Seq<Seq<char>>,
)
    requires
        strings_sorted(r1),
        r1.no_duplicates(),
        forall|name: Seq<char>| #[trigger] r1.contains(name) <==> occurs_in_listings(
            listings,
            name,
        ),
        strings_sorted(r2),
        r2.no_duplicates(),
        forall|name: Seq<char>| #[trigger] r2.contains(name) <==> occurs_in_listings(
            listings,
            name,
        ),
    ensures
        r1 == r2,
{
    assert(forall|x: Seq<char>| r1.contains(x) <==> r2.contains(x));
    lemma_distinct_same_members_multiset(r1, r2);
    lemma_sorted_multiset_unique(r1, r2);
}

/// Idempotence for path completion: the contract of `complete_paths`
/// pins its result uniquely, so two runs over the same entries return
/// the same candidates.
pub proof fn lemma_paths_idempotent(
    entries: Seq<FsEntry>,
    stem: Seq<char>,
    r1: Seq<Seq<char>>,
    r2: Seq<Seq<char>>,
)
    requires
        strings_sorted(r1),
        r1.to_multiset() == path_displays(entries, stem).to_multiset(),
        strings_sorted(r2),
        r2.to_multiset() == path_displays(entries, stem).to_multiset(),
    ensures
        r1 == r2,
{
    lemma_sorted_multiset_unique(r1, r2);
}

} // verus!
