//! The user's settings, and reading the leader key out of them.
use vstd::prelude::*;

use crate::keys::{control_bits, KeyCode, KeyModifiers};
use crate::text::{lowercase, str_chars, str_to_string, to_lowercase, trim, trimmed};

verus! {

/// The settings read from the configuration file.
pub struct Config {
    /// The leader key, such as `ctrl+b`.
    pub leader: String,
}

/// The leader key used when none is configured: `ctrl+b`.
pub fn default_leader() -> (r: String)
    ensures
        r@ == "ctrl+b"@,
{
    str_to_string("ctrl+b")
}

impl Default for Config {
    fn default() -> (r: Self)
        ensures
            r.leader@ == "ctrl+b"@,
    {
        Config { leader: default_leader() }
    }
}

/// The key a leader setting names, once trimmed and lower-cased: `ctrl+space` is
/// control-space, `ctrl+` and a single ASCII character is that character, and anything
/// else falls back to `b`. The modifier is always control.
pub open spec fn leader_key(setting: Seq<char>) -> KeyCode {
    let lower = lowercase(trimmed(setting));
    if lower.len() >= 5 && lower.take(5) == "ctrl+"@ {
        let rest = lower.skip(5);
        if rest == "space"@ {
            KeyCode::Char(' ')
        } else if rest.len() == 1 && (rest[0] as u32) < 0x80 {
            KeyCode::Char(rest[0])
        } else {
            KeyCode::Char('b')
        }
    } else {
        KeyCode::Char('b')
    }
}

/// What `std::path::Path::join` gives for the path `base` joined with `part`, as
/// characters.
pub uninterp spec fn joined(base: Seq<char>, part: Seq<char>) -> Seq<char>;

/// Calls `std::path::Path::join` on `base` and `part`; the result is named `joined`.
#[verifier::external_body]
fn join_path(base: &str, part: &str) -> (r: String)
    ensures
        r@ == joined(base@, part@),
{
    std::path::Path::new(base).join(part).to_string_lossy().into_owned()
}

/// The text as characters, if any.
pub open spec fn opt_view(t: Option<&str>) -> Option<Seq<char>> {
    match t {
        Some(s) => Some(s@),
        None => None,
    }
}

/// The directory of the configuration file: `sambil` under the application-data directory
/// where one is given (on Windows), else under `$XDG_CONFIG_HOME`, else
/// `$HOME/.config/sambil`, else `.sambil`.
pub open spec fn config_dir_for(
    appdata: Option<Seq<char>>,
    xdg: Option<Seq<char>>,
    home: Option<Seq<char>>,
) -> Seq<char> {
    match appdata {
        Some(a) => joined(a, "sambil"@),
        None => match xdg {
            Some(x) => joined(x, "sambil"@),
            None => match home {
                Some(h) => joined(joined(h, ".config"@), "sambil"@),
                None => ".sambil"@,
            },
        },
    }
}

/// Law: the application-data directory, whenever one is given, decides: the configuration
/// lives in it, under `sambil`, whatever `XDG_CONFIG_HOME` and `HOME` hold. Without it,
/// `XDG_CONFIG_HOME` decides the same way over `HOME`; `HOME` gives `.config/sambil` under
/// it; and with none of them the directory is the relative `.sambil`.
pub proof fn lemma_config_dir_priority(
    a: Seq<char>,
    x: Seq<char>,
    h: Seq<char>,
    xdg: Option<Seq<char>>,
    home: Option<Seq<char>>,
)
    ensures
        config_dir_for(Some(a), xdg, home) == joined(a, "sambil"@),
        config_dir_for(None, Some(x), home) == joined(x, "sambil"@),
        config_dir_for(None, None, Some(h)) == joined(joined(h, ".config"@), "sambil"@),
        config_dir_for(None, None, None) == ".sambil"@,
{
}

/// The directory of the configuration file, from the values of the application-data
/// directory (Windows only), `XDG_CONFIG_HOME` and `HOME` (see `config_dir_for`).
pub fn config_dir(appdata: Option<&str>, xdg: Option<&str>, home: Option<&str>) -> (r: String)
    ensures
        r@ == config_dir_for(opt_view(appdata), opt_view(xdg), opt_view(home)),
{
    match appdata {
        Some(a) => join_path(a, "sambil"),
        None => match xdg {
            Some(x) => join_path(x, "sambil"),
            None => match home {
                Some(h) => {
                    let config = join_path(h, ".config");
                    join_path(config.as_str(), "sambil")
                },
                None => str_to_string(".sambil"),
            },
        },
    }
}

/// The configuration file in directory `dir`: `config.toml` joined to it.
pub fn config_file(dir: &str) -> (r: String)
    ensures
        r@ == joined(dir@, "config.toml"@),
{
    join_path(dir, "config.toml")
}

fn chars_equal(a: &Vec<char>, b: &Vec<char>) -> (r: bool)
    ensures
        r == (a@ == b@),
{
    if a.len() != b.len() {
        return false;
    }
    let mut i: usize = 0;
    while i < a.len()
        invariant
            a.len() == b.len(),
            0 <= i <= a.len(),
            forall|k: int| 0 <= k < i ==> a@[k] == b@[k],
        decreases a.len() - i,
    {
        if a[i] != b[i] {
            return false;
        }
        i = i + 1;
    }
    assert(a@ =~= b@);
    true
}

/// The leader key a setting such as `ctrl+a` names (see `leader_key`), with the control
/// modifier.
pub fn parse_leader(leader: &str) -> (r: (KeyCode, KeyModifiers))
    ensures
        r.0 == leader_key(leader@),
        r.1 == control_bits(),
{
    let lower_string = to_lowercase(trim(leader));
    let lower = str_chars(lower_string.as_str());
    let prefix = str_chars("ctrl+");
    let space = str_chars("space");
    let mut head: Vec<char> = Vec::new();
    let mut rest: Vec<char> = Vec::new();
    let mut i: usize = 0;
    while i < lower.len()
        invariant
            0 <= i <= lower.len(),
            head@ == lower@.take(if i < 5 {
                i as int
            } else {
                5
            }),
            rest@ == (if i <= 5 {
                Seq::<char>::empty()
            } else {
                lower@.subrange(5, i as int)
            }),
        decreases lower.len() - i,
    {
        if i < 5 {
            head.push(lower[i]);
        } else {
            rest.push(lower[i]);
        }
        i = i + 1;
        assert(head@ =~= lower@.take(if i < 5 {
            i as int
        } else {
            5
        }));
        assert(rest@ =~= (if i <= 5 {
            Seq::<char>::empty()
        } else {
            lower@.subrange(5, i as int)
        }));
    }
    let code = if lower.len() >= 5 && chars_equal(&head, &prefix) {
        proof {
            assert(rest@ =~= lower@.skip(5));
        }
        if chars_equal(&rest, &space) {
            KeyCode::Char(' ')
        } else if rest.len() == 1 && (rest[0] as u32) < 0x80 {
            KeyCode::Char(rest[0])
        } else {
            KeyCode::Char('b')
        }
    } else {
        KeyCode::Char('b')
    };
    (code, KeyModifiers::control())
}

} // verus!
