//! Where the application keeps its files: the `.tianshu-bridge` directory in
//! the user's home directory, the configuration file and the log files in it.
//!
//! Paths are joined as `Path::join` joins them on the platform that `windows`
//! names. Off Windows every join is computed here and stated exactly. On
//! Windows so are: a segment with a drive prefix (it replaces the base); a
//! rooted segment onto a base that does not begin with two separators (it
//! keeps only the base's drive); a relative segment onto a base that is not
//! verbatim; and one plain component onto a verbatim base that normalization
//! leaves as it is. The remaining Windows joins (segments or bases that begin
//! with two separators, which std parses as network or device prefixes, and
//! verbatim joins that std normalizes component by component) are left to
//! `Path::join` on the running platform.
use vstd::prelude::*;
use crate::logs::{log_extension, strip_log_extensions};
use crate::profile::profile_id_text;
use crate::text::{
    chars_of, concat_str, has_prefix, has_suffix, hex_text, is_radix_char,
    lemma_radix_digits_shape, string_from_chars,
};

verus! {

/// An ASCII letter, as a Windows drive letter must be.
pub open spec fn is_ascii_letter(c: char) -> bool {
    ('a' <= c && c <= 'z') || ('A' <= c && c <= 'Z')
}

/// A path separator on the platform: `/`, and also `\` on Windows.
pub open spec fn is_separator(c: char, windows: bool) -> bool {
    c == '/' || (windows && c == '\\')
}

/// The Windows verbatim prefix `\\?\`.
pub open spec fn verbatim_prefix() -> Seq<char> {
    seq!['\\', '\\', '?', '\\']
}

/// `s` begins with a Windows drive prefix such as `C:`.
pub open spec fn has_drive_prefix(s: Seq<char>) -> bool {
    s.len() >= 2 && is_ascii_letter(s[0]) && s[1] == ':'
}

/// `s` begins with two separators (on Windows, where std reads a network,
/// device or verbatim prefix there).
pub open spec fn begins_with_two_separators(s: Seq<char>, windows: bool) -> bool {
    s.len() >= 2 && is_separator(s[0], windows) && is_separator(s[1], windows)
}

/// The drive of a base path on Windows: its first two characters where it
/// begins with a drive prefix, nothing otherwise.
pub open spec fn drive_of(base: Seq<char>) -> Seq<char> {
    if has_drive_prefix(base) {
        base.take(2)
    } else {
        Seq::<char>::empty()
    }
}

/// `segment` is relative on the platform: it has no root and (on Windows) no
/// drive prefix, so `Path::join` pushes it onto the base.
pub open spec fn is_relative_segment(segment: Seq<char>, windows: bool) -> bool {
    &&& !(segment.len() > 0 && is_separator(segment[0], windows))
    &&& !(windows && segment.len() >= 2 && is_ascii_letter(segment[0]) && segment[1] == ':')
}

/// `segment` is one plain path component: not empty, without separators,
/// neither `.` nor `..`, and without a drive prefix.
pub open spec fn is_single_component(segment: Seq<char>) -> bool {
    &&& segment.len() > 0
    &&& forall|i: int| 0 <= i < segment.len() ==> #[trigger] segment[i] != '/' && segment[i] != '\\'
    &&& segment != seq!['.']
    &&& segment != seq!['.', '.']
    &&& !(segment.len() >= 2 && is_ascii_letter(segment[0]) && segment[1] == ':')
}

/// At `i` of the text after a verbatim prefix, a `.` or `..` component begins.
pub open spec fn dot_component_at(r: Seq<char>, i: int) -> bool {
    ||| (r[i] == '.' && (i + 1 == r.len() || r[i + 1] == '\\'))
    ||| (i + 1 < r.len() && r[i] == '.' && r[i + 1] == '.' && (i + 2 == r.len() || r[i + 2]
        == '\\'))
}

/// A verbatim path that normalization leaves as it is: after `\\?\`, a
/// non-empty text that does not start with `\`, holds no `/`, has no empty
/// component (no `\\` inside) and no `.` or `..` component.
pub open spec fn is_tidy_verbatim(base: Seq<char>) -> bool {
    let r = base.skip(4);
    &&& has_prefix(base, verbatim_prefix())
    &&& r.len() > 0
    &&& r[0] != '\\'
    &&& forall|i: int| 0 <= i < r.len() ==> #[trigger] r[i] != '/'
    &&& forall|i: int| 0 <= i < r.len() - 1 ==> !(#[trigger] r[i] == '\\' && r[i + 1] == '\\')
    &&& forall|i: int|
        0 <= i < r.len() && (i == 0 || r[i - 1] == '\\') ==> !#[trigger] dot_component_at(r, i)
}

/// The joins computed here. Off Windows, every join. On Windows, a segment
/// with a drive prefix onto any base; one plain component onto a verbatim
/// base that normalization leaves as it is; a segment rooted by one
/// separator onto a base that does not begin with two separators; a relative
/// segment onto a base that is not verbatim.
pub open spec fn joins_simply(base: Seq<char>, segment: Seq<char>, windows: bool) -> bool {
    if !windows || has_drive_prefix(segment) {
        true
    } else if has_prefix(base, verbatim_prefix()) {
        is_tidy_verbatim(base) && is_single_component(segment)
    } else if segment.len() > 0 && is_separator(segment[0], true) {
        !begins_with_two_separators(segment, true) && !begins_with_two_separators(base, true)
    } else {
        true
    }
}

/// The separator `Path::join` puts between a base and a relative segment:
/// none after an empty base, a base that ends in a separator, or (on Windows)
/// a bare drive such as `C:`; otherwise the platform's separator.
pub open spec fn join_separator(base: Seq<char>, windows: bool) -> Seq<char> {
    if base.len() == 0 || is_separator(base.last(), windows) || (windows && base.len() == 2
        && is_ascii_letter(base[0]) && base[1] == ':') {
        Seq::<char>::empty()
    } else if windows {
        seq!['\\']
    } else {
        seq!['/']
    }
}

/// The separator after a verbatim base: none after a trailing `\`,
/// otherwise `\` (a bare verbatim drive such as `\\?\C:` gets one too).
pub open spec fn verbatim_separator(base: Seq<char>) -> Seq<char> {
    if base.last() == '\\' {
        Seq::<char>::empty()
    } else {
        seq!['\\']
    }
}

/// What `Path::join` makes of `base` and `segment` on the platform that
/// `windows` names, where `joins_simply` holds: off Windows an absolute
/// segment replaces the base; on Windows a segment with a drive prefix
/// replaces the base and a rooted one keeps only the base's drive; otherwise
/// the segment follows the base and the separator it needs.
pub open spec fn joined(base: Seq<char>, segment: Seq<char>, windows: bool) -> Seq<char> {
    if !windows && segment.len() > 0 && segment[0] == '/' {
        segment
    } else if windows && has_drive_prefix(segment) {
        segment
    } else if windows && has_prefix(base, verbatim_prefix()) {
        base + verbatim_separator(base) + segment
    } else if windows && segment.len() > 0 && is_separator(segment[0], true) {
        drive_of(base) + segment
    } else {
        base + join_separator(base, windows) + segment
    }
}

/// Joins a path and a segment with `Path::join` on the platform this runs on.
///
/// Trusted: wraps `Path::join`. Nothing is stated of the result: it is called
/// only for the Windows joins not computed here, whose result rests on how
/// std parses network, device and verbatim prefixes and how it normalizes a
/// verbatim path component by component, and it depends on the platform the
/// program runs on. Both inputs are UTF-8, so the text conversion of the
/// result loses nothing.
#[verifier::external_body]
fn path_join(base: &str, segment: &str) -> String {
    std::path::Path::new(base).join(segment).to_string_lossy().into_owned()
}

fn is_separator_exec(c: char, windows: bool) -> (b: bool)
    ensures
        b == is_separator(c, windows),
{
    c == '/' || (windows && c == '\\')
}

fn is_ascii_letter_exec(c: char) -> (b: bool)
    ensures
        b == is_ascii_letter(c),
{
    ('a' <= c && c <= 'z') || ('A' <= c && c <= 'Z')
}

fn is_single_component_exec(s: &Vec<char>) -> (b: bool)
    ensures
        b == is_single_component(s@),
{
    let n = s.len();
    if n == 0 {
        return false;
    }
    let mut i: usize = 0;
    while i < n
        invariant
            n == s.len(),
            i <= n,
            forall|j: int| 0 <= j < i ==> #[trigger] s@[j] != '/' && s@[j] != '\\',
        decreases n - i,
    {
        if s[i] == '/' || s[i] == '\\' {
            return false;
        }
        i = i + 1;
    }
    let dot = n == 1 && s[0] == '.';
    let dotdot = n == 2 && s[0] == '.' && s[1] == '.';
    let drive = n >= 2 && is_ascii_letter_exec(s[0]) && s[1] == ':';
    proof {
        if s@ == seq!['.'] {
            assert(s@[0] == '.');
        }
        if s@ == seq!['.', '.'] {
            assert(s@[0] == '.' && s@[1] == '.');
        }
        if dot {
            assert(s@ =~= seq!['.']);
        }
        if dotdot {
            assert(s@ =~= seq!['.', '.']);
        }
    }
    !dot && !dotdot && !drive
}

fn is_tidy_verbatim_exec(b: &Vec<char>) -> (t: bool)
    requires
        has_prefix(b@, verbatim_prefix()),
    ensures
        t == is_tidy_verbatim(b@),
{
    let n = b.len();
    let ghost r = b@.skip(4);
    if n == 4 || b[4] == '\\' {
        return false;
    }
    let mut i: usize = 4;
    while i < n
        invariant
            n == b.len(),
            4 <= i <= n,
            r == b@.skip(4),
            r.len() > 0,
            forall|k: int| 0 <= k < i - 4 ==> #[trigger] r[k] != '/',
            forall|k: int| 0 <= k < i - 4 && k < r.len() - 1 ==> !(#[trigger] r[k] == '\\' && r[k + 1] == '\\'),
            forall|k: int|
                0 <= k < i - 4 && (k == 0 || r[k - 1] == '\\') ==> !#[trigger] dot_component_at(r, k),
        decreases n - i,
    {
        let k = i - 4;
        proof {
            assert(r[k as int] == b@[i as int]);
            if i + 1 < n {
                assert(r[k + 1] == b@[i + 1]);
            }
            if i + 2 < n {
                assert(r[k + 2] == b@[i + 2]);
            }
            if k > 0 {
                assert(r[k - 1] == b@[i - 1]);
            }
        }
        if b[i] == '/' || (i + 1 < n && b[i] == '\\' && b[i + 1] == '\\') {
            return false;
        }
        let start = i == 4 || b[i - 1] == '\\';
        if start && b[i] == '.' {
            let single = i + 1 == n || b[i + 1] == '\\';
            let double = i + 1 < n && b[i + 1] == '.' && (i + 2 == n || b[i + 2] == '\\');
            if single || double {
                proof {
                    assert(dot_component_at(r, k as int));
                }
                return false;
            }
        }
        proof {
            assert(start == (k == 0 || r[k - 1] == '\\'));
            assert(!(start && dot_component_at(r, k as int)));
        }
        i = i + 1;
    }
    true
}

/// Joins `base` and `segment` as `Path::join` does on the platform that
/// `windows` names; the joins that `joins_simply` covers are computed exactly.
pub fn join_path(base: &str, segment: &str, windows: bool) -> (r: String)
    ensures
        joins_simply(base@, segment@, windows) ==> r@ == joined(base@, segment@, windows),
{
    let b = chars_of(base);
    let s = chars_of(segment);
    let n = b.len();
    let verbatim = windows && n >= 4 && b[0] == '\\' && b[1] == '\\' && b[2] == '?' && b[3] == '\\';
    proof {
        reveal_strlit("\\");
        reveal_strlit("/");
        if has_prefix(base@, verbatim_prefix()) {
            let t = base@.take(4);
            assert(t[0] == b@[0] && t[1] == b@[1] && t[2] == b@[2] && t[3] == b@[3]);
        }
        if n >= 4 && b@[0] == '\\' && b@[1] == '\\' && b@[2] == '?' && b@[3] == '\\' {
            assert(base@.take(4) =~= verbatim_prefix());
        }
    }
    if !windows {
        if s.len() > 0 && s[0] == '/' {
            return segment.to_owned();
        }
    } else if s.len() >= 2 && is_ascii_letter_exec(s[0]) && s[1] == ':' {
        return segment.to_owned();
    } else if verbatim {
        if is_tidy_verbatim_exec(&b) && is_single_component_exec(&s) {
            let with_sep = if b[n - 1] == '\\' {
                base.to_owned()
            } else {
                concat_str(base, "\\")
            };
            let r = concat_str(with_sep.as_str(), segment);
            proof {
                if b@[n - 1] != '\\' {
                    assert(verbatim_separator(base@) =~= seq!['\\']);
                }
                assert(r@ =~= joined(base@, segment@, windows));
            }
            return r;
        }
        return path_join(base, segment);
    } else if s.len() > 0 && is_separator_exec(s[0], windows) {
        let network_segment = s.len() >= 2 && is_separator_exec(s[1], windows);
        let network_base = n >= 2 && is_separator_exec(b[0], windows) && is_separator_exec(b[1], windows);
        if network_segment || network_base {
            return path_join(base, segment);
        }
        let drive = if n >= 2 && is_ascii_letter_exec(b[0]) && b[1] == ':' {
            string_from_chars(&b, 0, 2)
        } else {
            String::new()
        };
        let r = concat_str(drive.as_str(), segment);
        proof {
            assert(drive@ =~= drive_of(base@));
            assert(r@ =~= joined(base@, segment@, windows));
        }
        return r;
    }
    let no_sep = n == 0 || is_separator_exec(b[n - 1], windows) || (windows && n == 2
        && is_ascii_letter_exec(b[0]) && b[1] == ':');
    let with_sep = if no_sep {
        base.to_owned()
    } else if windows {
        concat_str(base, "\\")
    } else {
        concat_str(base, "/")
    };
    let r = concat_str(with_sep.as_str(), segment);
    proof {
        if !no_sep {
            assert(join_separator(base@, windows) =~= (if windows {
                seq!['\\']
            } else {
                seq!['/']
            }));
        }
        assert(r@ =~= joined(base@, segment@, windows));
    }
    r
}

// ───────────────────────────── the application's files ─────────────────────────────

/// Name of the application's directory in the home directory.
pub open spec fn config_dir_name() -> Seq<char> {
    ".tianshu-bridge"@
}

/// The application's directory in the home directory `home`.
pub open spec fn config_dir_text(home: Seq<char>, windows: bool) -> Seq<char> {
    joined(home, config_dir_name(), windows)
}

/// `s` holds no path separator.
pub open spec fn has_no_separator(s: Seq<char>) -> bool {
    forall|i: int| 0 <= i < s.len() ==> #[trigger] s[i] != '/' && s[i] != '\\'
}

/// The paths of the application's files in `home` are computed exactly: on
/// Windows, a verbatim home directory is one that normalization leaves as it
/// is.
pub open spec fn plain_home(home: Seq<char>, windows: bool) -> bool {
    windows && has_prefix(home, verbatim_prefix()) ==> is_tidy_verbatim(home)
}

/// On Windows, the application's directory in a plain home is a verbatim
/// path that normalization leaves as it is, whenever it is verbatim at all.
pub proof fn lemma_config_dir_tidy(home: Seq<char>, windows: bool)
    requires
        plain_home(home, windows),
    ensures
        windows && has_prefix(config_dir_text(home, windows), verbatim_prefix())
            ==> is_tidy_verbatim(config_dir_text(home, windows)),
{
    reveal_strlit(".tianshu-bridge");
    let n = config_dir_name();
    let d = config_dir_text(home, windows);
    if windows && has_prefix(d, verbatim_prefix()) {
        if has_prefix(home, verbatim_prefix()) {
            let sep = verbatim_separator(home);
            assert(d == home + sep + n);
            let r = home.skip(4);
            let rd = d.skip(4);
            assert(rd =~= r + sep + n);
            let m = r.len() + sep.len();
            assert(sep.len() == 1 ==> r[r.len() - 1] != '\\') by {
                if sep.len() == 1 {
                    assert(home.last() == r[r.len() - 1]);
                }
            }
            assert(sep.len() == 0 ==> r[r.len() - 1] == '\\') by {
                if sep.len() == 0 {
                    assert(home.last() == r[r.len() - 1]);
                }
            }
            assert forall|i: int| 0 <= i < rd.len() implies #[trigger] rd[i] != '/' by {
                if i < r.len() {
                    assert(rd[i] == r[i]);
                } else if i >= m {
                    assert(rd[i] == n[i - m]);
                }
            }
            assert forall|i: int| 0 <= i < rd.len() - 1 implies !(#[trigger] rd[i] == '\\' && rd[i
                + 1] == '\\') by {
                if i + 1 < r.len() {
                    assert(rd[i] == r[i] && rd[i + 1] == r[i + 1]);
                } else if i + 1 == r.len() {
                    assert(rd[i] == r[i]);
                } else if i >= m {
                    assert(rd[i + 1] == n[i + 1 - m]);
                } else {
                    assert(rd[i + 1] == n[0]);
                }
            }
            assert forall|i: int| 0 <= i < rd.len() && (i == 0 || rd[i - 1] == '\\') implies !#[trigger] dot_component_at(
                rd,
                i,
            ) by {
                if i < r.len() {
                    assert(rd[i] == r[i]);
                    if i > 0 {
                        assert(rd[i - 1] == r[i - 1]);
                    }
                    assert(!dot_component_at(r, i));
                    if i + 1 < r.len() {
                        assert(rd[i + 1] == r[i + 1]);
                    }
                    if i + 2 < r.len() {
                        assert(rd[i + 2] == r[i + 2]);
                    }
                    if i + 1 == r.len() && sep.len() == 0 {
                        assert(rd[i + 1] == n[0]);
                    }
                    if i + 2 == r.len() && sep.len() == 0 {
                        assert(rd[i + 2] == n[0]);
                    }
                } else if i < m {
                    assert(rd[i] == '\\');
                } else if i == m {
                    assert(rd[i] == n[0] && rd[i + 1] == n[1]);
                } else {
                    assert(rd[i - 1] == n[i - 1 - m]);
                }
            }
        } else {
            if home.len() >= 4 {
                assert(d.take(4) =~= home.take(4));
            } else {
                let sep = join_separator(home, windows);
                assert(d == home + sep + n);
                assert(d[3] == '\\');
                if home.len() + sep.len() <= 3 {
                    assert(d[3] == n[3 - home.len() - sep.len()]);
                }
                assert(home.len() == 3 && sep.len() == 1);
                assert(d.skip(4) =~= n);
            }
        }
    }
}

/// The file named `name` in the application's directory of `home`.
pub open spec fn app_file_text(home: Seq<char>, name: Seq<char>, windows: bool) -> Seq<char> {
    joined(config_dir_text(home, windows), name, windows)
}

/// A file name of at least three characters without separators, whose second
/// character is no drive colon, joins as one plain component.
proof fn lemma_file_name_joins(dir: Seq<char>, name: Seq<char>, windows: bool)
    requires
        name.len() >= 3,
        has_no_separator(name),
        name[1] != ':',
        windows && has_prefix(dir, verbatim_prefix()) ==> is_tidy_verbatim(dir),
    ensures
        is_single_component(name),
        is_relative_segment(name, windows),
        joins_simply(dir, name, windows),
{
    assert(name != seq!['.']) by {
        if name == seq!['.'] {
            assert(name.len() == 1);
        }
    }
    assert(name != seq!['.', '.']) by {
        if name == seq!['.', '.'] {
            assert(name.len() == 2);
        }
    }
    assert(name[0] != '/' && name[0] != '\\');
}

/// The application's directory inside the home directory `home`, on the
/// platform that `windows` names.
pub fn config_dir(home: &str, windows: bool) -> (d: String)
    ensures
        plain_home(home@, windows) ==> d@ == config_dir_text(home@, windows),
{
    proof {
        reveal_strlit(".tianshu-bridge");
        if plain_home(home@, windows) {
            lemma_file_name_joins(home@, config_dir_name(), windows);
        }
    }
    join_path(home, ".tianshu-bridge", windows)
}

/// The configuration file of the home directory `home`.
pub fn config_path(home: &str, windows: bool) -> (p: String)
    ensures
        plain_home(home@, windows) ==> p@ == app_file_text(home@, "config.json"@, windows),
{
    let dir = config_dir(home, windows);
    proof {
        reveal_strlit("config.json");
        if plain_home(home@, windows) {
            lemma_config_dir_tidy(home@, windows);
            lemma_file_name_joins(dir@, "config.json"@, windows);
        }
    }
    join_path(dir.as_str(), "config.json", windows)
}

/// File name of the log of the profile `profile_id`.
pub open spec fn profile_log_file_name(profile_id: Seq<char>) -> Seq<char> {
    "bridge-"@ + profile_id + log_extension()
}

/// The log file of a profile is computed exactly: the home is plain, and on
/// Windows, where the application's directory is verbatim, the profile's
/// identifier holds no separator (which normalization would act on).
pub open spec fn plain_profile_log(home: Seq<char>, profile_id: Seq<char>, windows: bool) -> bool {
    &&& plain_home(home, windows)
    &&& (windows && has_prefix(config_dir_text(home, windows), verbatim_prefix())
        ==> has_no_separator(profile_id))
}

/// The log file of the profile `profile_id`.
pub fn log_path_for(home: &str, profile_id: &str, windows: bool) -> (p: String)
    ensures
        plain_profile_log(home@, profile_id@, windows) ==> p@ == app_file_text(
            home@,
            profile_log_file_name(profile_id@),
            windows,
        ),
{
    let dir = config_dir(home, windows);
    let stem = concat_str("bridge-", profile_id);
    let name = concat_str(stem.as_str(), ".log");
    proof {
        reveal_strlit("bridge-");
        reveal_strlit(".log");
        assert(name@ =~= profile_log_file_name(profile_id@));
        if plain_profile_log(home@, profile_id@, windows) {
            lemma_config_dir_tidy(home@, windows);
            let n = name@;
            if windows && has_prefix(dir@, verbatim_prefix()) {
                assert(has_no_separator(n)) by {
                    assert forall|i: int| 0 <= i < n.len() implies #[trigger] n[i] != '/' && n[i]
                        != '\\' by {
                        if 7 <= i < 7 + profile_id@.len() {
                            assert(n[i] == profile_id@[i - 7]);
                        }
                    }
                }
                lemma_file_name_joins(dir@, n, windows);
            } else {
                assert(n[0] == 'b' && n[1] == 'r');
                assert(joins_simply(dir@, n, windows));
            }
        }
    }
    join_path(dir.as_str(), name.as_str(), windows)
}

/// The log file of the bridge started without a profile.
pub fn log_path(home: &str, windows: bool) -> (p: String)
    ensures
        plain_home(home@, windows) ==> p@ == app_file_text(home@, "bridge.log"@, windows),
{
    let dir = config_dir(home, windows);
    proof {
        reveal_strlit("bridge.log");
        if plain_home(home@, windows) {
            lemma_config_dir_tidy(home@, windows);
            lemma_file_name_joins(dir@, "bridge.log"@, windows);
        }
    }
    join_path(dir.as_str(), "bridge.log", windows)
}

/// The log file of the tray application itself.
pub fn trace_log_path(home: &str, windows: bool) -> (p: String)
    ensures
        plain_home(home@, windows) ==> p@ == app_file_text(home@, "tray.log"@, windows),
{
    let dir = config_dir(home, windows);
    proof {
        reveal_strlit("tray.log");
        if plain_home(home@, windows) {
            lemma_config_dir_tidy(home@, windows);
            lemma_file_name_joins(dir@, "tray.log"@, windows);
        }
    }
    join_path(dir.as_str(), "tray.log", windows)
}

/// Every file of the application lies directly in its directory: the path is
/// the directory, one separator, then the file name (the application's
/// directory never ends in a separator).
pub proof fn lemma_app_file_in_dir(home: Seq<char>, name: Seq<char>, windows: bool)
    requires
        name.len() > 0,
        is_relative_segment(name, windows),
    ensures
        app_file_text(home, name, windows) == config_dir_text(home, windows) + seq![
            if windows {
                '\\'
            } else {
                '/'
            },
        ] + name,
{
    reveal_strlit(".tianshu-bridge");
    let d = config_dir_text(home, windows);
    assert(d.last() == 'e');
    assert(d.len() != 2);
}

/// Different profiles have different log files, and no profile's log file is
/// the log file of the bridge started without a profile.
pub proof fn lemma_log_paths_distinct(home: Seq<char>, a: Seq<char>, b: Seq<char>, windows: bool)
    ensures
        a != b ==> app_file_text(home, profile_log_file_name(a), windows) != app_file_text(
            home,
            profile_log_file_name(b),
            windows,
        ),
        app_file_text(home, "bridge.log"@, windows) != app_file_text(
            home,
            profile_log_file_name(a),
            windows,
        ),
{
    reveal_strlit("bridge-");
    reveal_strlit("bridge.log");
    lemma_app_file_in_dir(home, profile_log_file_name(a), windows);
    lemma_app_file_in_dir(home, profile_log_file_name(b), windows);
    lemma_app_file_in_dir(home, "bridge.log"@, windows);
    let d = config_dir_text(home, windows) + seq![
        if windows {
            '\\'
        } else {
            '/'
        },
    ];
    let k: int = d.len() as int;
    if a != b {
        let na = profile_log_file_name(a);
        let nb = profile_log_file_name(b);
        if d + na == d + nb {
            assert(na =~= (d + na).skip(k));
            assert(nb =~= (d + nb).skip(k));
            assert(na.len() == nb.len());
            assert(a =~= na.subrange(7, 7 + a.len() as int));
            assert(b =~= nb.subrange(7, 7 + b.len() as int));
        }
    }
    let x = d + "bridge.log"@;
    let y = d + profile_log_file_name(a);
    assert(x[k + 6] == '.');
    assert(y[k + 6] == '-');
}

/// A profile's log file is one of the application's log files, and the log
/// viewer labels its lines `bridge-<id>` (for an identifier that does not
/// itself end in `.log`).
pub proof fn lemma_profile_log_source(profile_id: Seq<char>)
    ensures
        has_suffix(profile_log_file_name(profile_id), log_extension()),
        !has_suffix(profile_id, log_extension()) ==> strip_log_extensions(
            profile_log_file_name(profile_id),
        ) == "bridge-"@ + profile_id,
{
    reveal_strlit("bridge-");
    let stem = "bridge-"@ + profile_id;
    let name = profile_log_file_name(profile_id);
    assert(name.skip(name.len() - 4) =~= log_extension());
    assert(name.take(name.len() - 4) =~= stem);
    if !has_suffix(profile_id, log_extension()) {
        assert(!has_suffix(stem, log_extension())) by {
            if has_suffix(stem, log_extension()) {
                if profile_id.len() >= 4 {
                    assert(profile_id.skip(profile_id.len() - 4) =~= stem.skip(stem.len() - 4));
                } else {
                    let t = stem.skip(stem.len() - 4);
                    assert(t[0] == stem[stem.len() - 4]);
                    assert(stem[stem.len() - 4] == "bridge-"@[3 + profile_id.len() as int]);
                }
            }
        }
        assert(has_suffix(name, log_extension()));
        assert(strip_log_extensions(name) == strip_log_extensions(stem));
        assert(strip_log_extensions(stem) == stem);
    }
}

/// The log lines of a profile with a generated identifier are labelled
/// `bridge-<identifier>` in the log viewer.
pub proof fn lemma_generated_profile_log_source(millis: nat, salt: u32)
    ensures
        strip_log_extensions(profile_log_file_name(profile_id_text(millis, salt))) == "bridge-"@
            + profile_id_text(millis, salt),
{
    let id = profile_id_text(millis, salt);
    let h = hex_text(salt as nat);
    lemma_radix_digits_shape(salt as nat, 16);
    assert(id =~= seq!['p', '_'] + hex_text(millis) + seq!['_'] + h);
    assert(id.last() == h.last());
    assert(is_radix_char(h[h.len() - 1]));
    if has_suffix(id, log_extension()) {
        assert(id.skip(id.len() - 4)[3] == id.last());
    }
    lemma_profile_log_source(id);
}

} // verus!
