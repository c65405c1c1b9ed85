//! Locating Syncthing's `config.xml` and reading its API key.
use vstd::prelude::*;
use crate::text::{chars_of, occurs_at, find_from, first_occurrence, lemma_first_occurrence, lemma_first_occurrence_is, lemma_trim, is_white_space, same_text, trim, trim_bounds};
use crate::server::structs::SiteSetting;

verus! {

/// The text between the first `open` and the first `close` after it, trimmed,
/// when that text is not empty.
pub open spec fn delimited_value(x: Seq<char>, open: Seq<char>, close: Seq<char>) -> Option<Seq<char>> {
    match first_occurrence(x, open, 0) {
        Some(st) => match first_occurrence(x, close, st + open.len()) {
            Some(e) => {
                let k = trim(x.subrange(st + open.len(), e));
                if k.len() > 0 {
                    Some(k)
                } else {
                    None
                }
            },
            None => None,
        },
        None => None,
    }
}

/// The API key in a Syncthing configuration: the content of the first
/// `<apikey>` element, else the value of the first `apikey="..."` attribute.
pub open spec fn api_key_in(x: Seq<char>) -> Option<Seq<char>> {
    match delimited_value(x, "<apikey>"@, "</apikey>"@) {
        Some(k) => Some(k),
        None => delimited_value(x, "apikey=\""@, "\""@),
    }
}

/// A configuration whose first `<apikey>` element holds the key `k` (with
/// no `<` in it and no white space around it) reads back as `k`, whatever
/// follows the element.
pub proof fn lemma_api_key_read_back(before: Seq<char>, k: Seq<char>, after: Seq<char>)
    requires
        first_occurrence(before + "<apikey>"@, "<apikey>"@, 0) == Some(before.len() as int),
        k.len() > 0,
        trim(k) == k,
        forall|i: int| 0 <= i < k.len() ==> k[i] != '<',
    ensures
        api_key_in(before + "<apikey>"@ + k + "</apikey>"@ + after) == Some(k),
{
    reveal_strlit("<apikey>");
    reveal_strlit("</apikey>");
    let open = "<apikey>"@;
    let close = "</apikey>"@;
    let s0 = before + open;
    let x = before + open + k + close + after;
    let st = before.len() as int;
    let sp = st + open.len();
    let e = sp + k.len();
    lemma_first_occurrence(s0, open, 0);
    assert(x.subrange(0, s0.len() as int) =~= s0);
    assert(occurs_at(x, open, st)) by {
        assert(x.subrange(st, st + open.len()) =~= open);
    }
    assert forall|j: int| 0 <= j < st implies !occurs_at(x, open, j) by {
        assert(x.subrange(j, j + open.len()) =~= s0.subrange(j, j + open.len()));
        assert(!occurs_at(s0, open, j));
    }
    lemma_first_occurrence_is(x, open, 0, st);
    assert(occurs_at(x, close, e)) by {
        assert(x.subrange(e, e + close.len()) =~= close);
    }
    assert forall|j: int| sp <= j < e implies !occurs_at(x, close, j) by {
        assert(x[j] == k[j - sp]);
        if occurs_at(x, close, j) {
            assert(x.subrange(j, j + close.len())[0] == close[0]);
        }
    }
    lemma_first_occurrence_is(x, close, sp, e);
    assert(x.subrange(sp, e) =~= k);
}

proof fn lemma_delimited_shape(x: Seq<char>, open: Seq<char>, close: Seq<char>)
    ensures
        delimited_value(x, open, close) matches Some(k) ==> k.len() > 0 && !is_white_space(k[0])
            && !is_white_space(k.last()) && exists|a: int, b: int| 0 <= a <= b <= x.len() && k == x.subrange(a, b),
{
    lemma_first_occurrence(x, open, 0);
    if let Some(st) = first_occurrence(x, open, 0) {
        let sp = st + open.len();
        lemma_first_occurrence(x, close, sp);
        if let Some(e) = first_occurrence(x, close, sp) {
            let part = x.subrange(sp, e);
            let (a, b) = lemma_trim(part);
            assert(part.subrange(a, b) =~= x.subrange(sp + a, sp + b));
        }
    }
}

/// The API key read from a configuration is never empty, neither begins
/// nor ends with white space, and is a part of the configuration's text.
pub proof fn lemma_api_key_shape(x: Seq<char>)
    ensures
        api_key_in(x) matches Some(k) ==> k.len() > 0 && !is_white_space(k[0]) && !is_white_space(k.last())
            && exists|a: int, b: int| 0 <= a <= b <= x.len() && k == x.subrange(a, b),
{
    lemma_delimited_shape(x, "<apikey>"@, "</apikey>"@);
    lemma_delimited_shape(x, "apikey=\""@, "\""@);
}

fn delimited(x: &str, xv: &Vec<char>, open: &str, close: &str) -> (r: Option<String>)
    requires
        xv@ == x@,
    ensures
        match r {
            Some(k) => delimited_value(x@, open@, close@) == Some(k@),
            None => delimited_value(x@, open@, close@) is None,
        },
{
    let ov = chars_of(open);
    let cv = chars_of(close);
    match find_from(xv, &ov, 0) {
        Some(st) => {
            proof {
                lemma_first_occurrence(x@, open@, 0);
                assert(occurs_at(x@, open@, st as int));
                assert(ov@.len() == open@.len());
                assert(st + ov.len() <= xv.len());
            }
            let sp = st + ov.len();
            match find_from(xv, &cv, sp) {
                Some(e) => {
                    proof {
                        lemma_first_occurrence(x@, close@, sp as int);
                        assert(occurs_at(x@, close@, e as int));
                    }
                    let (a, b) = trim_bounds(xv, sp, e);
                    if a < b {
                        let k = x.substring_char(a, b).to_owned();
                        Some(k)
                    } else {
                        None
                    }
                },
                None => None,
            }
        },
        None => None,
    }
}

/// The platforms whose default configuration locations are known.
#[derive(Debug, Clone, Copy, PartialEq, Eq, Structural)]
pub enum Platform {
    Windows,
    Linux,
    MacOs,
    Other,
}

/// The separators of paths on `platform`.
pub open spec fn is_separator(platform: Platform, c: char) -> bool {
    c == '/' || (platform == Platform::Windows && c == '\\')
}

/// `base` joined with the relative `part`: a separator goes between them
/// unless `base` is empty or already ends with one (as `Path::join` does
/// for a relative part and a base that is not a bare drive prefix).
pub open spec fn path_join(platform: Platform, base: Seq<char>, part: Seq<char>) -> Seq<char> {
    if base.len() == 0 || is_separator(platform, base.last()) {
        base + part
    } else if platform == Platform::Windows {
        base + seq!['\\'] + part
    } else {
        base + seq!['/'] + part
    }
}

/// See `path_join`.
pub fn join_path(platform: Platform, base: &str, part: &str) -> (r: String)
    ensures
        r@ == path_join(platform, base@, part@),
{
    let n = base.unicode_len();
    let mut out = String::from_str(base);
    if n == 0 {
        out.append(part);
        return out;
    }
    let last = base.get_char(n - 1);
    assert(base@.last() == last);
    if last == '/' || (platform == Platform::Windows && last == '\\') {
        out.append(part);
    } else if platform == Platform::Windows {
        out.append("\\");
        proof {
            reveal_strlit("\\");
        }
        out.append(part);
    } else {
        out.append("/");
        proof {
            reveal_strlit("/");
        }
        out.append(part);
    }
    out
}

/// `base` joined with each of `parts` in turn.
pub open spec fn path_join_all(platform: Platform, base: Seq<char>, parts: Seq<Seq<char>>) -> Seq<char>
    decreases parts.len(),
{
    if parts.len() == 0 {
        base
    } else {
        path_join(platform, path_join_all(platform, base, parts.drop_last()), parts.last())
    }
}

/// `Some(x)` as a one-element sequence, `None` as an empty one.
pub open spec fn opt_seq(x: Option<Seq<char>>) -> Seq<Seq<char>> {
    match x {
        Some(v) => seq![v],
        None => Seq::empty(),
    }
}

/// `dir` joined with `parts`, when there is a `dir`.
pub open spec fn under(platform: Platform, dir: Option<String>, parts: Seq<Seq<char>>) -> Option<Seq<char>> {
    match dir {
        Some(d) => Some(path_join_all(platform, d@, parts)),
        None => None,
    }
}

/// Where Syncthing keeps its configuration, in the order to try: on Windows
/// under `%LOCALAPPDATA%`, then `%APPDATA%`, then two fixed places; on Linux
/// under the home directory's `.config`, then `/var/syncthing`, then
/// `/etc/syncthing`; on macOS under the home directory's `Library`.
pub open spec fn config_candidate_paths(platform: Platform, home: Option<String>, local_app_data: Option<String>, app_data: Option<String>) -> Seq<Seq<char>> {
    match platform {
        Platform::Windows => opt_seq(under(platform, local_app_data, seq!["Syncthing"@, "config.xml"@]))
            + opt_seq(under(platform, app_data, seq!["Syncthing"@, "config.xml"@])) + seq![
            "C:\\ProgramData\\Syncthing\\config.xml"@,
            "C:\\Syncthing\\config.xml"@,
        ],
        Platform::Linux => opt_seq(under(platform, home, seq![".config"@, "syncthing"@, "config.xml"@]))
            + seq!["/var/syncthing/config.xml"@, "/etc/syncthing/config.xml"@],
        Platform::MacOs => opt_seq(
            under(platform, home, seq!["Library"@, "Application Support"@, "Syncthing"@, "config.xml"@]),
        ),
        Platform::Other => Seq::empty(),
    }
}

fn join_under(platform: Platform, dir: Option<String>, parts: &Vec<&str>, out: &mut Vec<String>)
    ensures
        final(out)@.map_values(|s: String| s@) == old(out)@.map_values(|s: String| s@) + opt_seq(
            under(platform, dir, parts@.map_values(|p: &str| p@)),
        ),
{
    let ghost ps = parts@.map_values(|p: &str| p@);
    match dir {
        None => {
            assert(final(out)@.map_values(|s: String| s@) =~= old(out)@.map_values(|s: String| s@) + opt_seq(
                under(platform, dir, ps)));
        },
        Some(d) => {
            let mut acc = d;
            let ghost d0 = acc@;
            let mut i: usize = 0;
            while i < parts.len()
                invariant
                    i <= parts@.len(),
                    ps == parts@.map_values(|p: &str| p@),
                    acc@ == path_join_all(platform, d0, ps.subrange(0, i as int)),
                decreases parts.len() - i,
            {
                assert(ps.subrange(0, i + 1).drop_last() =~= ps.subrange(0, i as int));
                acc = join_path(platform, acc.as_str(), parts[i]);
                i = i + 1;
            }
            assert(ps.subrange(0, parts@.len() as int) =~= ps);
            out.push(acc);
            assert(final(out)@.map_values(|s: String| s@) =~= old(out)@.map_values(|s: String| s@) + opt_seq(
                under(platform, Some(d), ps)));
        },
    }
}

fn push_text(out: &mut Vec<String>, t: &str)
    ensures
        final(out)@.map_values(|s: String| s@) == old(out)@.map_values(|s: String| s@).push(t@),
{
    out.push(String::from_str(t));
    assert(final(out)@.map_values(|s: String| s@) =~= old(out)@.map_values(|s: String| s@).push(t@));
}

/// See `config_candidate_paths`.
pub fn config_candidates(platform: Platform, home: Option<String>, local_app_data: Option<String>, app_data: Option<String>) -> (r: Vec<String>)
    ensures
        r@.map_values(|s: String| s@) == config_candidate_paths(platform, home, local_app_data, app_data),
{
    let mut out: Vec<String> = Vec::new();
    assert(out@.map_values(|s: String| s@) =~= Seq::<Seq<char>>::empty());
    match platform {
        Platform::Windows => {
            let parts = vec!["Syncthing", "config.xml"];
            assert(parts@.map_values(|p: &str| p@) =~= seq!["Syncthing"@, "config.xml"@]);
            join_under(platform, local_app_data, &parts, &mut out);
            join_under(platform, app_data, &parts, &mut out);
            push_text(&mut out, "C:\\ProgramData\\Syncthing\\config.xml");
            push_text(&mut out, "C:\\Syncthing\\config.xml");
            assert(out@.map_values(|s: String| s@) =~= config_candidate_paths(platform, home, local_app_data, app_data));
        },
        Platform::Linux => {
            let parts = vec![".config", "syncthing", "config.xml"];
            assert(parts@.map_values(|p: &str| p@) =~= seq![".config"@, "syncthing"@, "config.xml"@]);
            join_under(platform, home, &parts, &mut out);
            push_text(&mut out, "/var/syncthing/config.xml");
            push_text(&mut out, "/etc/syncthing/config.xml");
            assert(out@.map_values(|s: String| s@) =~= config_candidate_paths(platform, home, local_app_data, app_data));
        },
        Platform::MacOs => {
            let parts = vec!["Library", "Application Support", "Syncthing", "config.xml"];
            assert(parts@.map_values(|p: &str| p@) =~= seq!["Library"@, "Application Support"@, "Syncthing"@, "config.xml"@]);
            join_under(platform, home, &parts, &mut out);
            assert(out@.map_values(|s: String| s@) =~= config_candidate_paths(platform, home, local_app_data, app_data));
        },
        Platform::Other => {},
    }
    out
}

/// The configuration file of Syncthing, when one was found.
#[derive(Debug)]
pub struct SyncthingConfig {
    config_path: Option<String>,
}

impl SyncthingConfig {
    /// The path of the configuration file, if any.
    pub closed spec fn path(&self) -> Option<Seq<char>> {
        match self.config_path {
            Some(p) => Some(p@),
            None => None,
        }
    }

    /// A configuration for the file found at `config_path` (see `find_config_file`).
    pub fn new(config_path: Option<String>) -> (c: Self)
        ensures
            c.path() == (match config_path {
                Some(p) => Some(p@),
                None => None::<Seq<char>>,
            }),
    {
        SyncthingConfig { config_path }
    }

    /// The first candidate that exists: `candidates` in the order they are
    /// tried, `present[i]` whether `candidates[i]` is present on disk.
    pub fn find_config_file(candidates: &Vec<String>, present: &Vec<bool>) -> (r: Option<String>)
        requires
            candidates.len() == present.len(),
        ensures
            match r {
                Some(p) => exists|i: int|
                    0 <= i < candidates.len() && present[i] && candidates[i]@ == p@ && forall|j: int|
                        0 <= j < i ==> !present[j],
                None => forall|j: int| 0 <= j < candidates.len() ==> !present[j],
            },
    {
        let mut i: usize = 0;
        while i < candidates.len()
            invariant
                candidates.len() == present.len(),
                i <= candidates.len(),
                forall|j: int| 0 <= j < i ==> !present[j],
            decreases candidates.len() - i,
        {
            if present[i] {
                let p = candidates[i].clone();
                assert(present[i as int] && candidates[i as int]@ == p@);
                return Some(p);
            }
            i = i + 1;
        }
        None
    }

    /// The API key in the text of a configuration file.
    pub fn parse_api_key(xml_content: &str) -> (r: Option<String>)
        ensures
            match r {
                Some(k) => api_key_in(xml_content@) == Some(k@),
                None => api_key_in(xml_content@) is None,
            },
    {
        let xv = chars_of(xml_content);
        match delimited(xml_content, &xv, "<apikey>", "</apikey>") {
            Some(k) => Some(k),
            None => delimited(xml_content, &xv, "apikey=\"", "\""),
        }
    }

    /// The path of the configuration file, if one was found.
    pub fn config_path(&self) -> (r: Option<&str>)
        ensures
            match r {
                Some(p) => self.path() == Some(p@),
                None => self.path() is None,
            },
    {
        match &self.config_path {
            Some(p) => Some(p.as_str()),
            None => None,
        }
    }

    /// What to do with the API key `api_key` read from the configuration
    /// file, given the `api-key` setting `existing` in the database.
    pub fn auto_configure_api_key(&self, api_key: Option<String>, existing: Option<SiteSetting>) -> (r: ApiKeyAction)
        ensures
            match api_key {
                None => r == ApiKeyAction::NoKey,
                Some(k) => match existing {
                    Some(s) if s.value@ != "NULL"@ && s.value@.len() > 0 => r
                        == ApiKeyAction::AlreadyConfigured,
                    _ => r == ApiKeyAction::Store(k),
                },
            },
    {
        match api_key {
            None => ApiKeyAction::NoKey,
            Some(k) => {
                let already = match &existing {
                    Some(s) => !same_text(s.value.as_str(), "NULL") && !s.value.as_str().is_empty(),
                    None => false,
                };
                if already {
                    ApiKeyAction::AlreadyConfigured
                } else {
                    ApiKeyAction::Store(k)
                }
            },
        }
    }
}

/// The outcome of automatic API-key configuration.
#[derive(Debug)]
pub enum ApiKeyAction {
    /// The configuration holds no key: nothing is done (reported as failure).
    NoKey,
    /// A key is already stored: nothing is done (reported as success).
    AlreadyConfigured,
    /// The key is to be stored under `api-key` (reported as success).
    Store(String),
}

impl ApiKeyAction {
    /// Whether the configuration counts as successful.
    pub fn succeeded(&self) -> (b: bool)
        ensures
            b == !(self is NoKey),
    {
        match self {
            ApiKeyAction::NoKey => false,
            _ => true,
        }
    }
}

} // verus!
