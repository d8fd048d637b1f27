//! Prompt rendering: shortening the working directory according to
//! the configured display mode, assembling the prompt context, and
//! substituting the template's variables and colour tags.  The clock,
//! user name, host name and working directory are environment values
//! the surrounding program passes in.

use vstd::prelude::*;
use crate::config::color_views;
use crate::config::PathDisplayMode;
use crate::config::ShellConfig;
use crate::num::int_str;
use crate::num::i32_to_string;
use crate::order::views_of;
use crate::text::eq_str;
use crate::text::replace_all;
use crate::text::replace_all_spec;
use crate::text::replace_first;
use crate::text::replace_first_spec;
use vstd::string::StrSliceExecFns;
use vstd::string::StringExecFns;

verus! {

/// The non-empty slash-separated segments of a path, in order.
pub open spec fn slash_tokens(s: Seq<char>) -> Seq<Seq<char>>
    decreases s.len(),
{
    if s.len() == 0 {
        Seq::empty()
    } else {
        let t = slash_tokens(s.drop_last());
        let c = s.last();
        if c == '/' {
            t
        } else if s.len() >= 2 && s[s.len() - 2] != '/' {
            t.update(t.len() - 1, t.last().push(c))
        } else {
            t.push(seq![c])
        }
    }
}

/// Split a path on slashes into its non-empty segments.
fn split_slash(s: &str) -> (r: Vec<String>)
    ensures
        views_of(r@) == slash_tokens(s@),
{
    let len = s.unicode_len();
    let mut toks: Vec<String> = Vec::new();
    let mut i: usize = 0;
    let mut start: usize = 0;
    let mut inside: bool = false;
    proof {
        assert(s@.take(0) =~= Seq::<char>::empty());
        assert(views_of(toks@) =~= Seq::<Seq<char>>::empty());
    }
    while i < len
        invariant
            i <= len,
            len == s@.len(),
            !inside ==> views_of(toks@) == slash_tokens(s@.take(i as int)),
            !inside ==> (i == 0 || s@[i as int - 1] == '/'),
            inside ==> start < i,
            inside ==> (start == 0 || s@[start as int - 1] == '/'),
            inside ==> forall|k: int| start <= k < i ==> #[trigger] s@[k] != '/',
            inside ==> views_of(toks@).push(s@.subrange(start as int, i as int)) == slash_tokens(
                s@.take(i as int),
            ),
        decreases len - i,
    {
        let ghost pi = s@.take(i as int);
        let ghost pn = s@.take(i as int + 1);
        proof {
            assert(pn.drop_last() =~= pi);
            assert(pn.last() == s@[i as int]);
        }
        let c = s.get_char(i);
        if c == '/' {
            if inside {
                let t = s.substring_char(start, i);
                toks.push(t.to_owned());
                inside = false;
                proof {
                    assert(t@ == s@.subrange(start as int, i as int));
                    assert(views_of(toks@) =~= slash_tokens(pi));
                }
            }
            proof {
                assert(slash_tokens(pn) == slash_tokens(pi));
            }
        } else {
            if !inside {
                start = i;
                inside = true;
                proof {
                    if pn.len() >= 2 {
                        assert(pn[pn.len() - 2] == s@[i as int - 1]);
                    }
                    assert(slash_tokens(pn) == slash_tokens(pi).push(seq![s@[i as int]]));
                    assert(s@.subrange(i as int, i as int + 1) =~= seq![s@[i as int]]);
                }
            } else {
                proof {
                    assert(pn.len() >= 2);
                    assert(pn[pn.len() - 2] == s@[i as int - 1]);
                    let t = slash_tokens(pi);
                    assert(slash_tokens(pn) == t.update(t.len() - 1, t.last().push(s@[i as int])));
                    let vs = views_of(toks@);
                    assert(t == vs.push(s@.subrange(start as int, i as int)));
                    assert(t.last() == s@.subrange(start as int, i as int));
                    assert(t.update(t.len() - 1, t.last().push(s@[i as int])) =~= vs.push(
                        s@.subrange(start as int, i as int).push(s@[i as int]),
                    ));
                    assert(s@.subrange(start as int, i as int).push(s@[i as int]) =~= s@.subrange(
                        start as int,
                        i as int + 1,
                    ));
                }
            }
        }
        i += 1;
    }
    proof {
        assert(s@.take(len as int) =~= s@);
    }
    if inside {
        let t = s.substring_char(start, len);
        toks.push(t.to_owned());
        proof {
            assert(t@ == s@.subrange(start as int, len as int));
            assert(views_of(toks@) =~= slash_tokens(s@));
        }
    }
    toks
}

/// The components of a path: a root marker for an absolute path, then
/// its non-empty segments.
pub open spec fn path_components(p: Seq<char>) -> Seq<Seq<char>> {
    if p.len() > 0 && p[0] == '/' {
        seq![seq!['/']] + slash_tokens(p)
    } else {
        slash_tokens(p)
    }
}

/// The components of a path as values.
fn components_of(s: &str) -> (r: Vec<String>)
    ensures
        views_of(r@) == path_components(s@),
{
    let toks = split_slash(s);
    let len = s.unicode_len();
    if len > 0 && s.get_char(0) == '/' {
        proof {
            reveal_strlit("/");
        }
        let mut out: Vec<String> = Vec::new();
        out.push("/".to_owned());
        let mut rest = toks;
        out.append(&mut rest);
        proof {
            assert("/"@ =~= seq!['/']);
            assert(views_of(out@) =~= seq![seq!['/']] + slash_tokens(s@));
        }
        out
    } else {
        toks
    }
}

/// `pre` is an initial run of `full`.
pub open spec fn comp_prefix(pre: Seq<Seq<char>>, full: Seq<Seq<char>>) -> bool {
    pre.len() <= full.len() && full.subrange(0, pre.len() as int) == pre
}

/// Do the path's components start with the home directory's?
fn components_start_with(path: &str, home: &str) -> (r: bool)
    ensures
        r == comp_prefix(path_components(home@), path_components(path@)),
{
    let pc = components_of(path);
    let hc = components_of(home);
    let hl = hc.len();
    if hl > pc.len() {
        return false;
    }
    let mut i: usize = 0;
    while i < hl
        invariant
            i <= hl,
            hl == views_of(hc@).len(),
            hl <= views_of(pc@).len(),
            views_of(pc@) == path_components(path@),
            views_of(hc@) == path_components(home@),
            forall|j: int| 0 <= j < i ==> views_of(pc@)[j] == views_of(hc@)[j],
        decreases hl - i,
    {
        if !eq_str(pc[i].as_str(), hc[i].as_str()) {
            proof {
                let h = path_components(home@);
                let p = path_components(path@);
                if comp_prefix(h, p) {
                    assert(p.subrange(0, h.len() as int)[i as int] == h[i as int]);
                }
            }
            return false;
        }
        i += 1;
    }
    proof {
        assert(path_components(path@).subrange(0, hl as int) =~= path_components(home@));
    }
    true
}

/// One abbreviation pass over the components from position `j` on:
/// a separator where needed, then the first character of every
/// component but the last, which is kept whole.
pub open spec fn shortall_fold(comps: Seq<Seq<char>>, j: int, acc: Seq<char>) -> Seq<char>
    decreases comps.len() - j,
{
    if j < 0 || j >= comps.len() {
        acc
    } else {
        let part = comps[j];
        let acc1 = if acc.len() > 0 && acc.last() != '/' {
            acc + seq!['/']
        } else {
            acc
        };
        let acc2 = if j < comps.len() - 1 {
            if part.len() > 0 {
                acc1.push(part[0])
            } else {
                acc1
            }
        } else {
            acc1 + part
        };
        shortall_fold(comps, j + 1, acc2)
    }
}

/// Run the abbreviation pass from `start` with the given prefix text.
fn shortall_format(comps: &Vec<String>, start: usize, init: String) -> (r: String)
    ensures
        r@ == shortall_fold(views_of(comps@), start as int, init@),
{
    proof {
        reveal_strlit("/");
    }
    let n = comps.len();
    let mut acc = init;
    let mut j: usize = start;
    if start >= n {
        return acc;
    }
    while j < n
        invariant
            start <= j <= n,
            n == comps@.len(),
            shortall_fold(views_of(comps@), start as int, init@) == shortall_fold(
                views_of(comps@),
                j as int,
                acc@,
            ),
        decreases n - j,
    {
        let ghost before = acc@;
        let part = &comps[j];
        let alen = acc.unicode_len();
        if alen > 0 && acc.get_char(alen - 1) != '/' {
            acc.append("/");
            proof {
                reveal_strlit("/");
                assert("/"@ =~= seq!['/']);
                assert(acc@ == before + seq!['/']);
            }
        }
        let ghost mid = acc@;
        let plen = part.unicode_len();
        if j < n - 1 {
            if plen > 0 {
                let first = part.substring_char(0, 1);
                acc.append(first);
                proof {
                    assert(first@ =~= seq![part@[0]]);
                    assert(acc@ =~= mid.push(part@[0]));
                }
            }
        } else {
            acc.append(part.as_str());
        }
        proof {
            assert(views_of(comps@)[j as int] == part@);
        }
        j += 1;
    }
    acc
}

/// The working directory as the prompt shows it, by display mode:
/// unchanged; with the home directory collapsed to a tilde; with every
/// leading component shortened to its first character; or only the
/// final segment (a bare root showing as a question mark).
pub open spec fn format_path_spec(path: Seq<char>, mode: PathDisplayMode, home: Seq<char>) -> Seq<
    char,
> {
    match mode {
        PathDisplayMode::Full => path,
        PathDisplayMode::Short => if comp_prefix(path_components(home), path_components(path)) {
            replace_first_spec(path, home, seq!['~'])
        } else {
            path
        },
        PathDisplayMode::ShortAll => {
            let comps = path_components(path);
            let homec = path_components(home);
            if comp_prefix(homec, comps) {
                shortall_fold(comps, homec.len() as int, seq!['~'])
            } else {
                shortall_fold(comps, 0, Seq::empty())
            }
        },
        PathDisplayMode::Current => {
            let toks = slash_tokens(path);
            if toks.len() > 0 {
                toks.last()
            } else {
                seq!['?']
            }
        },
    }
}

/// Format the working directory for the prompt (see
/// `format_path_spec`).
pub fn format_path(path: &str, mode: &PathDisplayMode, home: &str) -> (r: String)
    ensures
        r@ == format_path_spec(path@, *mode, home@),
{
    match mode {
        PathDisplayMode::Full => path.to_owned(),
        PathDisplayMode::Short => {
            proof {
                reveal_strlit("~");
            }
            if components_start_with(path, home) {
                let r = replace_first(path, home, "~");
                proof {
                    assert("~"@ =~= seq!['~']);
                }
                r
            } else {
                path.to_owned()
            }
        },
        PathDisplayMode::ShortAll => {
            proof {
                reveal_strlit("~");
            }
            let comps = components_of(path);
            let hc = components_of(home);
            if components_start_with(path, home) {
                let r = shortall_format(&comps, hc.len(), "~".to_owned());
                proof {
                    assert("~"@ =~= seq!['~']);
                }
                r
            } else {
                let r = shortall_format(&comps, 0, String::new());
                r
            }
        },
        PathDisplayMode::Current => {
            let toks = split_slash(path);
            if toks.len() > 0 {
                proof {
                    assert(views_of(toks@)[toks@.len() - 1] == slash_tokens(path@).last());
                }
                let last = toks[toks.len() - 1].clone();
                last
            } else {
                proof {
                    reveal_strlit("?");
                    assert("?"@ =~= seq!['?']);
                }
                "?".to_owned()
            }
        },
    }
}

/// Everything the prompt template can mention.
pub struct PromptContext {
    pub time: String,
    pub last_error: i32,
    pub hostname: String,
    pub username: String,
    pub path: String,
    pub status_icon: String,
}

/// Assemble the prompt context from the configuration and the
/// environment values the surrounding program read: the clock text,
/// user and host names, the working directory and the home directory.
/// Fields whose display is switched off stay empty; the status icon
/// follows the last exit code.
pub fn get_prompt_context(
    last_error: i32,
    config: &ShellConfig,
    time_now: &str,
    username: &str,
    hostname: &str,
    cwd: &str,
    home: &str,
) -> (r: PromptContext)
    ensures
        r.time@ == if config.prompt.show_time {
            time_now@
        } else {
            Seq::<char>::empty()
        },
        r.username@ == if config.prompt.show_user {
            username@
        } else {
            Seq::<char>::empty()
        },
        r.hostname@ == if config.prompt.show_host {
            hostname@
        } else {
            Seq::<char>::empty()
        },
        r.last_error == last_error,
        r.path@ == format_path_spec(cwd@, config.prompt.path_mode, home@),
        r.status_icon@ == if last_error == 0 {
            config.prompt.status_icon_success@
        } else {
            config.prompt.status_icon_error@
        },
{
    let time = if config.prompt.show_time {
        time_now.to_owned()
    } else {
        String::new()
    };
    let username = if config.prompt.show_user {
        username.to_owned()
    } else {
        String::new()
    };
    let hostname = if config.prompt.show_host {
        hostname.to_owned()
    } else {
        String::new()
    };
    let path = format_path(cwd, &config.prompt.path_mode, home);
    let status_icon = if last_error == 0 {
        config.prompt.status_icon_success.clone()
    } else {
        config.prompt.status_icon_error.clone()
    };
    PromptContext { time, last_error, hostname, username, path, status_icon }
}

/// The colour substitutions applied in table order: each key `k`
/// replaces every `$k` with its value.
pub open spec fn color_fold(s: Seq<char>, colors: Seq<(Seq<char>, Seq<char>)>, i: int) -> Seq<char>
    decreases colors.len() - i,
{
    if i < 0 || i >= colors.len() {
        s
    } else {
        color_fold(replace_all_spec(s, seq!['$'] + colors[i].0, colors[i].1), colors, i + 1)
    }
}

/// The rendered prompt: the template with its variables substituted,
/// then the colour table applied in order.
pub open spec fn render_spec(
    template: Seq<char>,
    time: Seq<char>,
    err: int,
    host: Seq<char>,
    user: Seq<char>,
    path: Seq<char>,
    icon: Seq<char>,
    colors: Seq<(Seq<char>, Seq<char>)>,
) -> Seq<char> {
    let s1 = replace_all_spec(template, "$time"@, time);
    let s2 = replace_all_spec(s1, "$err"@, int_str(err));
    let s3 = replace_all_spec(s2, "$host"@, host);
    let s4 = replace_all_spec(s3, "$user"@, user);
    let s5 = replace_all_spec(s4, "$path"@, path);
    let s6 = replace_all_spec(s5, "$status_icon"@, icon);
    color_fold(s6, colors, 0)
}

/// Render the prompt for the given configuration and context.
pub fn render_prompt(config: &ShellConfig, ctx: &PromptContext) -> (r: String)
    ensures
        r@ == render_spec(
            config.prompt.template@,
            ctx.time@,
            ctx.last_error as int,
            ctx.hostname@,
            ctx.username@,
            ctx.path@,
            ctx.status_icon@,
            color_views(config.colors@),
        ),
{
    let s1 = replace_all(config.prompt.template.as_str(), "$time", ctx.time.as_str());
    let err_text = i32_to_string(ctx.last_error);
    let s2 = replace_all(s1.as_str(), "$err", err_text.as_str());
    let s3 = replace_all(s2.as_str(), "$host", ctx.hostname.as_str());
    let s4 = replace_all(s3.as_str(), "$user", ctx.username.as_str());
    let s5 = replace_all(s4.as_str(), "$path", ctx.path.as_str());
    let s6 = replace_all(s5.as_str(), "$status_icon", ctx.status_icon.as_str());
    let ghost base = s6@;
    let ghost colors = color_views(config.colors@);
    let n = config.colors.len();
    let mut out = s6;
    let mut i: usize = 0;
    while i < n
        invariant
            i <= n,
            n == config.colors@.len(),
            colors == color_views(config.colors@),
            color_fold(base, colors, 0) == color_fold(out@, colors, i as int),
        decreases n - i,
    {
        proof {
            reveal_strlit("$");
        }
        let mut pat = String::new();
        pat.append("$");
        pat.append(config.colors[i].0.as_str());
        proof {
            assert("$"@ =~= seq!['$']);
            assert(pat@ == seq!['$'] + colors[i as int].0);
            assert(colors[i as int].1 == config.colors@[i as int].1@);
        }
        let next = replace_all(out.as_str(), pat.as_str(), config.colors[i].1.as_str());
        out = next;
        i += 1;
    }
    out
}

} // verus!
