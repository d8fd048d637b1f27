//! The shell's configuration: prompt settings, the colour table, and
//! history bookkeeping, with the defaults and the merge rule applied
//! when a configuration file is loaded.  Reading and writing the file
//! itself is the surrounding program's job; it hands the parsed values
//! in and receives the resolved configuration back.

use vstd::prelude::*;
use crate::text::eq_str;
use crate::text::tilde_expanded;
use vstd::string::StrSliceExecFns;
use vstd::string::StringExecFns;

verus! {

/// How the working directory is shown in the prompt.
#[derive(Clone, Copy, PartialEq, Eq, Structural, Debug)]
pub enum PathDisplayMode {
    Full,
    Short,
    ShortAll,
    Current,
}

/// The prompt's settings.
#[derive(Clone, Debug)]
pub struct PromptConfig {
    pub template: String,
    pub path_mode: PathDisplayMode,
    pub status_icon_success: String,
    pub status_icon_error: String,
    pub show_time: bool,
    pub show_user: bool,
    pub show_host: bool,
    pub default_editor: String,
}

/// The whole configuration.  Colours are an ordered key/value table
/// with unique keys; the path of the file the configuration came from
/// rides along.
#[derive(Clone, Debug)]
pub struct ShellConfig {
    pub prompt: PromptConfig,
    pub colors: Vec<(String, String)>,
    pub history_size: usize,
    pub history_file: String,
    pub config_path: String,
}

/// The views of a colour table.
pub open spec fn color_views(s: Seq<(String, String)>) -> Seq<(Seq<char>, Seq<char>)> {
    s.map_values(|p: (String, String)| (p.0@, p.1@))
}

/// Some entry of the table has this key.
pub open spec fn has_color_key(s: Seq<(Seq<char>, Seq<char>)>, k: Seq<char>) -> bool {
    exists|i: int| 0 <= i < s.len() && (#[trigger] s[i]).0 == k
}

/// The default colour table, in its fixed order.
pub open spec fn default_color_pairs() -> Seq<(Seq<char>, Seq<char>)> {
    seq![
        ("reset"@, "\x1b[0m"@),
        ("black"@, "\x1b[30m"@),
        ("red"@, "\x1b[31m"@),
        ("green"@, "\x1b[32m"@),
        ("yellow"@, "\x1b[33m"@),
        ("blue"@, "\x1b[34m"@),
        ("magenta"@, "\x1b[35m"@),
        ("cyan"@, "\x1b[36m"@),
        ("white"@, "\x1b[37m"@),
        ("bg_black"@, "\x1b[40m"@),
        ("bg_red"@, "\x1b[41m"@),
        ("bg_green"@, "\x1b[42m"@),
        ("bg_yellow"@, "\x1b[43m"@),
        ("bg_blue"@, "\x1b[44m"@),
        ("bg_magenta"@, "\x1b[45m"@),
        ("bg_cyan"@, "\x1b[46m"@),
        ("bg_white"@, "\x1b[47m"@),
        ("bold"@, "\x1b[1m"@),
        ("underline"@, "\x1b[4m"@),
        ("italic"@, "\x1b[3m"@),
        ("strikethrough"@, "\x1b[9m"@),
    ]
}

/// The default settings, apart from the configuration path.
pub open spec fn is_default_settings(c: ShellConfig) -> bool {
    &&& c.prompt.template@ == "[$time] $user@$host:$path $status_icon "@
    &&& c.prompt.path_mode is Short
    &&& c.prompt.status_icon_success@ == "$green\u{2713}$reset"@
    &&& c.prompt.status_icon_error@ == "$red\u{2717}$reset"@
    &&& c.prompt.show_time == true
    &&& c.prompt.show_user == true
    &&& c.prompt.show_host == true
    &&& c.prompt.default_editor@ == "nano"@
    &&& color_views(c.colors@) == default_color_pairs()
    &&& c.history_size == 1000
    &&& c.history_file@ == "~/.local/share/ncash/history.txt"@
}

/// The default colour table as values.
fn default_colors() -> (r: Vec<(String, String)>)
    ensures
        color_views(r@) == default_color_pairs(),
{
    let mut v: Vec<(String, String)> = Vec::new();
    v.push(("reset".to_owned(), "\x1b[0m".to_owned()));
    v.push(("black".to_owned(), "\x1b[30m".to_owned()));
    v.push(("red".to_owned(), "\x1b[31m".to_owned()));
    v.push(("green".to_owned(), "\x1b[32m".to_owned()));
    v.push(("yellow".to_owned(), "\x1b[33m".to_owned()));
    v.push(("blue".to_owned(), "\x1b[34m".to_owned()));
    v.push(("magenta".to_owned(), "\x1b[35m".to_owned()));
    v.push(("cyan".to_owned(), "\x1b[36m".to_owned()));
    v.push(("white".to_owned(), "\x1b[37m".to_owned()));
    v.push(("bg_black".to_owned(), "\x1b[40m".to_owned()));
    v.push(("bg_red".to_owned(), "\x1b[41m".to_owned()));
    v.push(("bg_green".to_owned(), "\x1b[42m".to_owned()));
    v.push(("bg_yellow".to_owned(), "\x1b[43m".to_owned()));
    v.push(("bg_blue".to_owned(), "\x1b[44m".to_owned()));
    v.push(("bg_magenta".to_owned(), "\x1b[45m".to_owned()));
    v.push(("bg_cyan".to_owned(), "\x1b[46m".to_owned()));
    v.push(("bg_white".to_owned(), "\x1b[47m".to_owned()));
    v.push(("bold".to_owned(), "\x1b[1m".to_owned()));
    v.push(("underline".to_owned(), "\x1b[4m".to_owned()));
    v.push(("italic".to_owned(), "\x1b[3m".to_owned()));
    v.push(("strikethrough".to_owned(), "\x1b[9m".to_owned()));
    proof {
        assert(color_views(v@) =~= default_color_pairs());
    }
    v
}

impl Default for ShellConfig {
    /// The default configuration; its path is empty until a load
    /// resolves it.
    fn default() -> (r: Self)
        ensures
            is_default_settings(r),
            r.config_path@ == Seq::<char>::empty(),
    {
        ShellConfig {
            prompt: PromptConfig {
                template: "[$time] $user@$host:$path $status_icon ".to_owned(),
                path_mode: PathDisplayMode::Short,
                status_icon_success: "$green\u{2713}$reset".to_owned(),
                status_icon_error: "$red\u{2717}$reset".to_owned(),
                show_time: true,
                show_user: true,
                show_host: true,
                default_editor: "nano".to_owned(),
            },
            colors: default_colors(),
            history_size: 1000,
            history_file: "~/.local/share/ncash/history.txt".to_owned(),
            config_path: String::new(),
        }
    }
}

/// The colour table with every default entry whose key is missing
/// appended, in default order.
pub open spec fn merge_missing(
    base: Seq<(Seq<char>, Seq<char>)>,
    defaults: Seq<(Seq<char>, Seq<char>)>,
) -> Seq<(Seq<char>, Seq<char>)>
    decreases defaults.len(),
{
    if defaults.len() == 0 {
        base
    } else {
        let m = merge_missing(base, defaults.drop_last());
        let d = defaults.last();
        if has_color_key(m, d.0) {
            m
        } else {
            m.push(d)
        }
    }
}

/// Does the table define this key?
fn table_has_key(table: &Vec<(String, String)>, key: &str) -> (r: bool)
    ensures
        r == has_color_key(color_views(table@), key@),
{
    let n = table.len();
    let mut i: usize = 0;
    while i < n
        invariant
            i <= n,
            n == table@.len(),
            forall|j: int| 0 <= j < i ==> (#[trigger] color_views(table@)[j]).0 != key@,
        decreases n - i,
    {
        if eq_str(table[i].0.as_str(), key) {
            proof {
                assert(color_views(table@)[i as int].0 == key@);
            }
            return true;
        }
        i += 1;
    }
    false
}

impl ShellConfig {
    /// Resolve a load attempt.  A parsed file keeps its settings,
    /// takes the path it was read from, and inherits every default
    /// colour it does not define; no usable file yields the defaults
    /// at that path.
    pub fn load(parsed: Option<ShellConfig>, config_path: String) -> (r: ShellConfig)
        ensures
            match parsed {
                Option::Some(c) => {
                    &&& r.prompt == c.prompt
                    &&& r.history_size == c.history_size
                    &&& r.history_file == c.history_file
                    &&& r.config_path == config_path
                    &&& color_views(r.colors@) == merge_missing(
                        color_views(c.colors@),
                        default_color_pairs(),
                    )
                },
                Option::None => is_default_settings(r) && r.config_path == config_path,
            },
    {
        match parsed {
            Option::Some(c) => {
                let base = c.colors;
                let ghost base_views = color_views(base@);
                let defaults = default_colors();
                let nd = defaults.len();
                let mut merged = base;
                let mut i: usize = 0;
                proof {
                    assert(default_color_pairs().take(0) =~= Seq::<(Seq<char>, Seq<char>)>::empty());
                    assert(color_views(merged@) =~= merge_missing(
                        base_views,
                        default_color_pairs().take(0),
                    ));
                }
                while i < nd
                    invariant
                        i <= nd,
                        nd == defaults@.len(),
                        color_views(defaults@) == default_color_pairs(),
                        color_views(merged@) == merge_missing(
                            base_views,
                            default_color_pairs().take(i as int),
                        ),
                    decreases nd - i,
                {
                    let ghost tk = default_color_pairs().take(i as int);
                    let ghost tn = default_color_pairs().take(i as int + 1);
                    proof {
                        assert(tn.drop_last() =~= tk);
                        assert(tn.last() == default_color_pairs()[i as int]);
                    }
                    let key = &defaults[i].0;
                    proof {
                        assert(color_views(defaults@)[i as int].0 == key@);
                    }
                    if !table_has_key(&merged, key.as_str()) {
                        let pair = (defaults[i].0.clone(), defaults[i].1.clone());
                        merged.push(pair);
                        proof {
                            assert(color_views(merged@) =~= merge_missing(base_views, tk).push(
                                default_color_pairs()[i as int],
                            ));
                        }
                    }
                    i += 1;
                }
                proof {
                    assert(default_color_pairs().take(nd as int) =~= default_color_pairs());
                }
                ShellConfig {
                    prompt: c.prompt,
                    colors: merged,
                    history_size: c.history_size,
                    history_file: c.history_file,
                    config_path,
                }
            },
            Option::None => {
                let mut r = ShellConfig::default();
                r.config_path = config_path;
                r
            },
        }
    }

    /// The default location of the configuration file below the given
    /// configuration directory.
    pub fn get_default_config_path(config_dir: &str) -> (r: String)
        ensures
            r@ == config_dir@ + "/neocash/ncashrc"@,
    {
        let mut out = config_dir.to_owned();
        out.append("/neocash/ncashrc");
        out
    }

    /// The path this configuration was loaded from or written to.
    pub fn get_active_config_path(&self) -> (r: &String)
        ensures
            r@ == self.config_path@,
    {
        &self.config_path
    }

    /// The history file's path, with a leading tilde expanded against
    /// the given home directory.
    pub fn get_history_path(&self, home: Option<&String>) -> (r: String)
        ensures
            r@ == tilde_expanded(
                self.history_file@,
                match home {
                    Option::Some(h) => Option::Some(h@),
                    Option::None => Option::None,
                },
            ),
    {
        crate::text::expand_tilde(self.history_file.as_str(), home)
    }
}

} // verus!
