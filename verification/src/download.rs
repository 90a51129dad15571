//! Transfer engine logic: destination filename resolution, URL shortcut
//! contents, resume and range decisions, per-chunk control-signal handling,
//! progress computation, and content hashing.

use vstd::prelude::*;
use vstd::string::StringExecFns;
use sha2::Digest;
use crate::models::{iso_week_of, week_dir_chars, Resource, MAX_WEEK_TIMESTAMP};
use crate::queue::SignalState;
use crate::text::{chars_to_string, str_to_chars};

verus! {

/// The suffix after the last `/`, or the whole string when it has none.
pub open spec fn after_last_slash(s: Seq<char>) -> Seq<char>
    decreases s.len(),
{
    if s.len() == 0 {
        s
    } else if s.last() == '/' {
        Seq::empty()
    } else {
        after_last_slash(s.drop_last()).push(s.last())
    }
}

/// The prefix before the first occurrence of `c`, or the whole string when it
/// has none.
pub open spec fn before_first(s: Seq<char>, c: char) -> Seq<char>
    decreases s.len(),
{
    if s.len() == 0 {
        s
    } else if s.first() == c {
        Seq::empty()
    } else {
        seq![s.first()] + before_first(s.drop_first(), c)
    }
}

/// The filename a URL yields: its last path segment stripped of query
/// parameters, provided the segment is nonempty and contains a dot.
pub open spec fn extract_filename_spec(url: Seq<char>) -> Option<Seq<char>> {
    let seg = after_last_slash(url);
    if seg.len() > 0 && seg.contains('.') {
        Some(before_first(seg, '?'))
    } else {
        None
    }
}

/// When no `/` occurs at or after `l` and `l` is zero or preceded by a `/`,
/// the suffix after the last slash starts exactly at `l`.
proof fn lemma_after_last_slash_at(s: Seq<char>, l: int)
    requires
        0 <= l <= s.len(),
        l == 0 || s[l - 1] == '/',
        forall|k: int| l <= k < s.len() ==> s[k] != '/',
    ensures
        after_last_slash(s) == s.subrange(l, s.len() as int),
    decreases s.len(),
{
    if s.len() == 0 {
        assert(after_last_slash(s) =~= s.subrange(l, s.len() as int));
    } else if s.last() == '/' {
        assert(l == s.len()) by {
            if l < s.len() {
                assert(s[s.len() - 1] != '/');
            }
        }
        assert(after_last_slash(s) =~= s.subrange(l, s.len() as int));
    } else {
        assert(l < s.len()) by {
            if l == s.len() {
                assert(s[l - 1] == '/');
            }
        }
        assert(forall|k: int| l <= k < s.drop_last().len() ==> s.drop_last()[k] != '/');
        lemma_after_last_slash_at(s.drop_last(), l);
        assert(s.drop_last().subrange(l, s.len() - 1) =~= s.subrange(l, s.len() - 1));
        assert(after_last_slash(s) =~= s.subrange(l, s.len() as int));
    }
}

/// When `c` does not occur before `m` and occurs at `m` unless `m` is the
/// length, the prefix before the first `c` ends exactly at `m`.
proof fn lemma_before_first_at(s: Seq<char>, c: char, m: int)
    requires
        0 <= m <= s.len(),
        forall|k: int| 0 <= k < m ==> s[k] != c,
        m < s.len() ==> s[m] == c,
    ensures
        before_first(s, c) == s.subrange(0, m),
    decreases s.len(),
{
    if s.len() == 0 {
        assert(before_first(s, c) =~= s.subrange(0, m));
    } else if s.first() == c {
        assert(m == 0);
        assert(before_first(s, c) =~= s.subrange(0, m));
    } else {
        assert(m >= 1) by {
            if m == 0 {
                assert(s[0] == c);
            }
        }
        assert(forall|k: int| 0 <= k < m - 1 ==> s.drop_first()[k] != c);
        lemma_before_first_at(s.drop_first(), c, m - 1);
        assert(s.drop_first().subrange(0, m - 1) =~= s.subrange(1, m));
        assert(before_first(s, c) =~= s.subrange(0, m));
    }
}

/// Extract a destination filename from a URL: the last path segment, stripped
/// of query parameters, when it is nonempty and contains a dot; `None`
/// otherwise.
pub fn extract_filename_from_url(url: &str) -> (r: Option<String>)
    ensures
        match r {
            Some(name) => extract_filename_spec(url@) == Some(name@),
            None => extract_filename_spec(url@) is None,
        },
{
    let chars = str_to_chars(url);
    let n = chars.len();

    // Position right after the last slash.
    let mut l: usize = 0;
    let mut i: usize = 0;
    while i < n
        invariant
            n == chars@.len(),
            i <= n,
            l <= i,
            l == 0 || chars@[l - 1] == '/',
            forall|k: int| l <= k < i ==> chars@[k] != '/',
        decreases n - i,
    {
        if chars[i] == '/' {
            l = i + 1;
        }
        i = i + 1;
    }
    proof {
        lemma_after_last_slash_at(chars@, l as int);
    }
    let ghost seg = chars@.subrange(l as int, n as int);

    if l == n {
        return None;
    }

    // The segment must contain a dot.
    let mut has_dot: bool = false;
    let mut j: usize = l;
    while j < n
        invariant
            n == chars@.len(),
            l <= j <= n,
            seg == chars@.subrange(l as int, n as int),
            has_dot == exists|k: int| l <= k < j && chars@[k] == '.',
        decreases n - j,
    {
        if chars[j] == '.' {
            has_dot = true;
        }
        j = j + 1;
    }
    if !has_dot {
        proof {
            assert(!seg.contains('.')) by {
                if seg.contains('.') {
                    let k = choose|k: int| 0 <= k < seg.len() && seg[k] == '.';
                    assert(chars@[l + k] == '.');
                }
            }
        }
        return None;
    }
    proof {
        assert(seg.contains('.')) by {
            let k = choose|k: int| l <= k < n && chars@[k] == '.';
            assert(seg[k - l] == '.');
        }
    }

    // Strip query parameters: stop at the first question mark.
    let mut q: usize = l;
    while q < n && chars[q] != '?'
        invariant
            n == chars@.len(),
            l <= q <= n,
            forall|k: int| l <= k < q ==> chars@[k] != '?',
        decreases n - q,
    {
        q = q + 1;
    }
    proof {
        assert(forall|k: int| 0 <= k < q - l ==> seg[k] != '?');
        lemma_before_first_at(seg, '?', q - l);
        assert(seg.subrange(0, q - l) =~= chars@.subrange(l as int, q as int));
    }

    let mut name: Vec<char> = Vec::new();
    let mut m: usize = l;
    while m < q
        invariant
            l <= m <= q <= n,
            n == chars@.len(),
            name@ == chars@.subrange(l as int, m as int),
        decreases q - m,
    {
        name.push(chars[m]);
        m = m + 1;
        proof {
            assert(name@ =~= chars@.subrange(l as int, m as int));
        }
    }
    Some(chars_to_string(&name))
}

/// A Unicode control character (the C0 and C1 ranges).
pub open spec fn is_control_char(c: char) -> bool {
    (c as u32) < 0x20 || (0x7f <= c as u32 && c as u32 <= 0x9f)
}

/// A Unicode whitespace character, as `trim` removes.
pub open spec fn is_space_char(c: char) -> bool {
    ||| c == '\u{0009}'
    ||| c == '\u{000A}'
    ||| c == '\u{000B}'
    ||| c == '\u{000C}'
    ||| c == '\u{000D}'
    ||| c == ' '
    ||| c == '\u{0085}'
    ||| c == '\u{00A0}'
    ||| c == '\u{1680}'
    ||| ('\u{2000}' <= c && c <= '\u{200A}')
    ||| c == '\u{2028}'
    ||| c == '\u{2029}'
    ||| c == '\u{202F}'
    ||| c == '\u{205F}'
    ||| c == '\u{3000}'
}

/// How one character is sanitized: path separators, wildcard and quoting
/// characters, and control characters become underscores.
pub open spec fn sanitize_char(c: char) -> char {
    if c == '/' || c == '\\' || c == ':' || c == '*' || c == '?' || c == '"' || c == '<'
        || c == '>' || c == '|' {
        '_'
    } else if is_control_char(c) {
        '_'
    } else {
        c
    }
}

/// The string without its leading whitespace.
pub open spec fn trim_start_chars(s: Seq<char>) -> Seq<char>
    decreases s.len(),
{
    if s.len() > 0 && is_space_char(s.first()) {
        trim_start_chars(s.drop_first())
    } else {
        s
    }
}

/// The string without its trailing whitespace.
pub open spec fn trim_end_chars(s: Seq<char>) -> Seq<char>
    decreases s.len(),
{
    if s.len() > 0 && is_space_char(s.last()) {
        trim_end_chars(s.drop_last())
    } else {
        s
    }
}

/// A sanitized filename: every character sanitized, then surrounding
/// whitespace trimmed.
pub open spec fn sanitize_filename_spec(s: Seq<char>) -> Seq<char> {
    trim_end_chars(trim_start_chars(s.map_values(|c: char| sanitize_char(c))))
}

/// When the first `a` characters are whitespace and the one at `a` (if any)
/// is not, trimming from the start drops exactly them.
proof fn lemma_trim_start_at(s: Seq<char>, a: int)
    requires
        0 <= a <= s.len(),
        forall|k: int| 0 <= k < a ==> is_space_char(s[k]),
        a < s.len() ==> !is_space_char(s[a]),
    ensures
        trim_start_chars(s) == s.skip(a),
    decreases s.len(),
{
    if s.len() == 0 {
        assert(trim_start_chars(s) =~= s.skip(a));
    } else if is_space_char(s.first()) {
        assert(a >= 1);
        assert(forall|k: int| 0 <= k < a - 1 ==> is_space_char(s.drop_first()[k]));
        lemma_trim_start_at(s.drop_first(), a - 1);
        assert(s.drop_first().skip(a - 1) =~= s.skip(a));
    } else {
        assert(a == 0);
        assert(trim_start_chars(s) =~= s.skip(a));
    }
}

/// When the characters from `b` on are whitespace and the one before `b` (if
/// any) is not, trimming from the end keeps exactly the first `b`.
proof fn lemma_trim_end_at(s: Seq<char>, b: int)
    requires
        0 <= b <= s.len(),
        forall|k: int| b <= k < s.len() ==> is_space_char(s[k]),
        b > 0 ==> !is_space_char(s[b - 1]),
    ensures
        trim_end_chars(s) == s.take(b),
    decreases s.len(),
{
    if s.len() == 0 {
        assert(trim_end_chars(s) =~= s.take(b));
    } else if is_space_char(s.last()) {
        assert(b < s.len());
        assert(forall|k: int| b <= k < s.drop_last().len() ==> is_space_char(s.drop_last()[k]));
        lemma_trim_end_at(s.drop_last(), b);
        assert(s.drop_last().take(b) =~= s.take(b));
    } else {
        assert(b == s.len());
        assert(trim_end_chars(s) =~= s.take(b));
    }
}

/// Whether `c` is whitespace that `trim` would remove.
fn is_space_exec(c: char) -> (r: bool)
    ensures
        r == is_space_char(c),
{
    c == '\u{0009}' || c == '\u{000A}' || c == '\u{000B}' || c == '\u{000C}' || c == '\u{000D}'
        || c == ' ' || c == '\u{0085}' || c == '\u{00A0}' || c == '\u{1680}'
        || ('\u{2000}' <= c && c <= '\u{200A}') || c == '\u{2028}' || c == '\u{2029}'
        || c == '\u{202F}' || c == '\u{205F}' || c == '\u{3000}'
}

/// Sanitize a title into a valid filename: replace path separators, wildcard
/// and quoting characters and control characters with underscores, then trim
/// surrounding whitespace.
pub fn sanitize_filename(name: &str) -> (r: String)
    ensures
        r@ == sanitize_filename_spec(name@),
{
    let chars = str_to_chars(name);
    let mut mapped: Vec<char> = Vec::new();
    let mut i: usize = 0;
    while i < chars.len()
        invariant
            i <= chars@.len(),
            mapped@ == chars@.subrange(0, i as int).map_values(|c: char| sanitize_char(c)),
        decreases chars@.len() - i,
    {
        let c = chars[i];
        let mapped_c: char = if c == '/' || c == '\\' || c == ':' || c == '*' || c == '?'
            || c == '"' || c == '<' || c == '>' || c == '|' {
            '_'
        } else if (c as u32) < 0x20 || (0x7f <= c as u32 && c as u32 <= 0x9f) {
            '_'
        } else {
            c
        };
        proof {
            assert(mapped_c == sanitize_char(c));
        }
        mapped.push(mapped_c);
        i = i + 1;
        proof {
            assert(mapped@ =~= chars@.subrange(0, i as int).map_values(
                |c: char| sanitize_char(c)));
        }
    }
    proof {
        assert(chars@.subrange(0, chars@.len() as int) =~= chars@);
    }
    let ghost m = mapped@;
    let n = mapped.len();

    // Leading whitespace.
    let mut a: usize = 0;
    while a < n && is_space_exec(mapped[a])
        invariant
            n == mapped@.len(),
            mapped@ == m,
            a <= n,
            forall|k: int| 0 <= k < a ==> is_space_char(m[k]),
        decreases n - a,
    {
        a = a + 1;
    }
    proof {
        lemma_trim_start_at(m, a as int);
    }

    // Trailing whitespace.
    let mut b: usize = n;
    while b > a && is_space_exec(mapped[b - 1])
        invariant
            n == mapped@.len(),
            mapped@ == m,
            a <= b <= n,
            forall|k: int| b <= k < n ==> is_space_char(m[k]),
        decreases b,
    {
        b = b - 1;
    }
    proof {
        let t = m.skip(a as int);
        if a < n {
            assert(!is_space_char(m[a as int]));
        }
        assert(forall|k: int| b - a <= k < t.len() ==> is_space_char(t[k]));
        if b > a {
            assert(!is_space_char(t[b - a - 1]));
        }
        lemma_trim_end_at(t, b - a);
        assert(t.take(b - a) =~= m.subrange(a as int, b as int));
    }

    let mut out: Vec<char> = Vec::new();
    let mut k: usize = a;
    while k < b
        invariant
            a <= k <= b <= n,
            n == mapped@.len(),
            mapped@ == m,
            out@ == m.subrange(a as int, k as int),
        decreases b - k,
    {
        out.push(mapped[k]);
        k = k + 1;
        proof {
            assert(out@ =~= m.subrange(a as int, k as int));
        }
    }
    chars_to_string(&out)
}

/// Resolve the destination filename of a task: the URL's filename when it
/// yields one, the sanitized title otherwise.
pub fn resolve_filename(url: &str, title: &str) -> (r: String)
    ensures
        r@ == match extract_filename_spec(url@) {
            Some(name) => name,
            None => sanitize_filename_spec(title@),
        },
{
    match extract_filename_from_url(url) {
        Some(name) => name,
        None => sanitize_filename(title),
    }
}

/// The name of the partial artifact of a filename: the filename with the
/// reserved suffix appended.
pub fn part_file_name(filename: &str) -> (r: String)
    ensures
        r@ == filename@ + ".part"@,
{
    let mut r = filename.to_owned();
    r.append(".part");
    r
}

/// Contents of a Windows `.url` shortcut: the filename and the file body.
pub fn create_windows_url_shortcut(name: &str, url: &str) -> (r: (String, String))
    ensures
        r.0@ == name@ + ".url"@,
        r.1@ == "[InternetShortcut]\r\nURL="@ + url@ + "\r\n"@,
{
    let mut filename = name.to_owned();
    filename.append(".url");
    let mut content = "[InternetShortcut]\r\nURL=".to_owned();
    content.append(url);
    content.append("\r\n");
    (filename, content)
}

/// Contents of a macOS `.webloc` shortcut: the filename and the plist body.
pub fn create_macos_webloc_shortcut(name: &str, url: &str) -> (r: (String, String))
    ensures
        r.0@ == name@ + ".webloc"@,
        r.1@ == "<?xml version=\"1.0\" encoding=\"UTF-8\"?>\n<!DOCTYPE plist PUBLIC \"-//Apple//DTD PLIST 1.0//EN\" \"http://www.apple.com/DTDs/PropertyList-1.0.dtd\">\n<plist version=\"1.0\">\n<dict>\n    <key>URL</key>\n    <string>"@
            + url@ + "</string>\n</dict>\n</plist>"@,
{
    let mut filename = name.to_owned();
    filename.append(".webloc");
    let mut content =
        "<?xml version=\"1.0\" encoding=\"UTF-8\"?>\n<!DOCTYPE plist PUBLIC \"-//Apple//DTD PLIST 1.0//EN\" \"http://www.apple.com/DTDs/PropertyList-1.0.dtd\">\n<plist version=\"1.0\">\n<dict>\n    <key>URL</key>\n    <string>".to_owned();
    content.append(url);
    content.append("</string>\n</dict>\n</plist>");
    (filename, content)
}

/// Contents of a Linux `.desktop` shortcut: the filename and the desktop
/// entry body.
pub fn create_linux_desktop_shortcut(name: &str, url: &str) -> (r: (String, String))
    ensures
        r.0@ == name@ + ".desktop"@,
        r.1@ == "[Desktop Entry]\nType=Link\nName="@ + name@ + "\nURL="@ + url@
            + "\nIcon=video-x-generic\n"@,
{
    let mut filename = name.to_owned();
    filename.append(".desktop");
    let mut content = "[Desktop Entry]\nType=Link\nName=".to_owned();
    content.append(name);
    content.append("\nURL=");
    content.append(url);
    content.append("\nIcon=video-x-generic\n");
    (filename, content)
}

/// Full destination path of a task's file: the week directory of its
/// creation time under the work directory, then the resolved filename.
pub fn resource_destination(work_dir: &str, resource: &Resource) -> (r: String)
    requires
        0 <= resource.created_at <= MAX_WEEK_TIMESTAMP,
    ensures
        r@ == work_dir@ + "/"@
            + week_dir_chars(
                iso_week_of(resource.created_at).0 as int,
                iso_week_of(resource.created_at).1 as int,
            ) + "/"@
            + (match extract_filename_spec(resource.download_url@) {
                Some(name) => name,
                None => sanitize_filename_spec(resource.title@),
            }),
{
    let week = resource.week();
    let dir = week.as_dir_name();
    let name = resolve_filename(resource.download_url.as_str(), resource.title.as_str());
    let mut r = work_dir.to_owned();
    r.append("/");
    r.append(dir.as_str());
    r.append("/");
    r.append(name.as_str());
    proof {
        assert(r@ =~= work_dir@ + "/"@
            + week_dir_chars(
                iso_week_of(resource.created_at).0 as int,
                iso_week_of(resource.created_at).1 as int,
            ) + "/"@
            + (match extract_filename_spec(resource.download_url@) {
                Some(name) => name,
                None => sanitize_filename_spec(resource.title@),
            }));
    }
    r
}

/// HTTP status code that signals the server honored a range request.
pub const PARTIAL_CONTENT_STATUS: u16 = 206;

/// How the response body is written to the partial artifact: from which
/// offset, and whether it appends to the existing bytes or truncates them.
#[derive(Clone, Copy, Debug, PartialEq, Eq, Structural)]
pub struct StreamSetup {
    /// Offset the transfer effectively starts at.
    pub offset: u64,
    /// Whether the existing partial artifact is kept and appended to;
    /// otherwise it is truncated and the transfer restarts from zero.
    pub append: bool,
}

/// Decide how to stream the response: resume only when a resume offset was
/// requested and the server answered with partial content. The server's
/// status, not the client's intent, determines whether resume is honored.
pub fn stream_setup(resume_offset: u64, status_code: u16) -> (r: StreamSetup)
    ensures
        r.offset == (if status_code == PARTIAL_CONTENT_STATUS {
            resume_offset
        } else {
            0u64
        }),
        r.append == (status_code == PARTIAL_CONTENT_STATUS && resume_offset > 0),
{
    if status_code == PARTIAL_CONTENT_STATUS {
        StreamSetup { offset: resume_offset, append: resume_offset > 0 }
    } else {
        StreamSetup { offset: 0, append: false }
    }
}

/// Total size of the transfer when the server declared a content length: the
/// declared remaining length plus the resumed offset. `None` when no length
/// was declared or the sum does not fit.
pub fn content_total(content_length: Option<u64>, offset: u64) -> (r: Option<u64>)
    ensures
        r == (match content_length {
            Some(l) => if l + offset <= u64::MAX {
                Some((l + offset) as u64)
            } else {
                None::<u64>
            },
            None => None::<u64>,
        }),
{
    match content_length {
        Some(l) => {
            if l <= u64::MAX - offset {
                Some(l + offset)
            } else {
                None
            }
        },
        None => None,
    }
}

/// What the engine does before writing a chunk, by the control signal it
/// observes.
#[derive(Clone, Copy, Debug, PartialEq, Eq, Structural)]
pub enum ChunkAction {
    /// Signal absent or `Running`: write the chunk and go on.
    Proceed,
    /// `Paused`: stop writing, keep the partial artifact for a later resume.
    StopPaused,
    /// `Cancelled`: stop writing, delete the partial artifact.
    StopCancelled,
}

/// The action a control signal calls for.
pub open spec fn chunk_action_spec(sig: Option<SignalState>) -> ChunkAction {
    match sig {
        None => ChunkAction::Proceed,
        Some(SignalState::Running) => ChunkAction::Proceed,
        Some(SignalState::Paused) => ChunkAction::StopPaused,
        Some(SignalState::Cancelled) => ChunkAction::StopCancelled,
    }
}

/// Decide what to do before writing a chunk: continue while the signal is
/// absent or `Running`, stop and keep the artifact on `Paused`, stop and
/// delete it on `Cancelled`.
pub fn chunk_action(sig: Option<SignalState>) -> (r: ChunkAction)
    ensures
        r == chunk_action_spec(sig),
{
    match sig {
        None => ChunkAction::Proceed,
        Some(SignalState::Running) => ChunkAction::Proceed,
        Some(SignalState::Paused) => ChunkAction::StopPaused,
        Some(SignalState::Cancelled) => ChunkAction::StopCancelled,
    }
}

/// Progress percentage: the share of `total` already downloaded, in whole
/// percent, capped at one hundred.
pub fn progress_percent(downloaded: u64, total: u64) -> (r: u8)
    requires
        total > 0,
    ensures
        r as int == (if downloaded as int * 100 / total as int > 100 {
            100int
        } else {
            downloaded as int * 100 / total as int
        }),
{
    proof {
        assert((downloaded as u128) * 100 <= 0xFFFF_FFFF_FFFF_FFFFu128 * 100)
            by (nonlinear_arith)
            requires
                downloaded as u128 <= 0xFFFF_FFFF_FFFF_FFFFu128,
        ;
    }
    let p: u128 = (downloaded as u128) * 100 / (total as u128);
    if p > 100 {
        100
    } else {
        p as u8
    }
}

/// SHA-256 digest of a byte sequence.
pub uninterp spec fn sha256_digest_of(data: Seq<u8>) -> Seq<u8>;

/// Relies on sha2's `Sha256` through `Digest::digest`: the digest is a
/// function of the input bytes alone, and is 32 bytes long.
#[verifier::external_body]
fn sha256_digest(data: &[u8]) -> (r: Vec<u8>)
    ensures
        r@ == sha256_digest_of(data@),
        r@.len() == 32,
{
    sha2::Sha256::digest(data).to_vec()
}

/// The sixteen hexadecimal digits, lower case.
pub const HEX_LOWER: [char; 16] = [
    '0',
    '1',
    '2',
    '3',
    '4',
    '5',
    '6',
    '7',
    '8',
    '9',
    'a',
    'b',
    'c',
    'd',
    'e',
    'f',
];

/// Lower-case hexadecimal rendering of a byte sequence, two digits per byte.
pub open spec fn hex_lower_of(data: Seq<u8>) -> Seq<char>
    decreases data.len(),
{
    if data.len() == 0 {
        Seq::empty()
    } else {
        hex_lower_of(data.drop_last())
            + seq![HEX_LOWER@[(data.last() >> 4) as int], HEX_LOWER@[(data.last() & 0x0f) as int]]
    }
}

/// Render bytes as lower-case hexadecimal.
pub fn to_hex_lower(data: &[u8]) -> (r: String)
    ensures
        r@ == hex_lower_of(data@),
{
    let mut out: Vec<char> = Vec::new();
    let mut i: usize = 0;
    while i < data.len()
        invariant
            i <= data@.len(),
            out@ == hex_lower_of(data@.subrange(0, i as int)),
        decreases data@.len() - i,
    {
        let b = data[i];
        proof {
            assert((b >> 4) < 16 && (b & 0x0f) < 16) by (bit_vector);
        }
        out.push(HEX_LOWER[(b >> 4) as usize]);
        out.push(HEX_LOWER[(b & 0x0f) as usize]);
        i = i + 1;
        proof {
            assert(data@.subrange(0, i as int).drop_last() =~= data@.subrange(0, i - 1));
            assert(data@.subrange(0, i as int).last() == b);
            assert(out@ =~= hex_lower_of(data@.subrange(0, i as int)));
        }
    }
    proof {
        assert(data@.subrange(0, data@.len() as int) =~= data@);
    }
    chars_to_string(&out)
}

/// Content hash of a completed file: the SHA-256 digest of its bytes, in
/// lower-case hexadecimal.
pub fn sha256_hex(data: &[u8]) -> (r: String)
    ensures
        r@ == hex_lower_of(sha256_digest_of(data@)),
{
    let digest = sha256_digest(data);
    to_hex_lower(digest.as_slice())
}

/// The bytes a transfer starts from: the partial artifact when appending, an
/// empty (truncated) artifact otherwise.
pub open spec fn transfer_base(partial: Seq<u8>, append: bool) -> Seq<u8> {
    if append {
        partial
    } else {
        Seq::empty()
    }
}

/// A control signal that lets the transfer proceed.
pub open spec fn is_running_sig(sig: Option<SignalState>) -> bool {
    sig is None || sig == Some(SignalState::Running)
}

/// Index of the first chunk whose observed control signal stops the loop, or
/// the number of chunks when none does.
pub open spec fn first_stop(sigs: Seq<Option<SignalState>>) -> int
    decreases sigs.len(),
{
    if sigs.len() == 0 {
        0
    } else if !is_running_sig(sigs.first()) {
        0
    } else {
        1 + first_stop(sigs.drop_first())
    }
}

/// All bytes of the chunks, in order.
pub open spec fn concat_chunks(chunks: Seq<Seq<u8>>) -> Seq<u8>
    decreases chunks.len(),
{
    if chunks.len() == 0 {
        Seq::empty()
    } else {
        concat_chunks(chunks.drop_last()) + chunks.last()
    }
}

/// When the signals before `k` let the loop proceed and the one at `k` (if
/// any) stops it, the loop stops exactly at `k`.
proof fn lemma_first_stop_at(sigs: Seq<Option<SignalState>>, k: int)
    requires
        0 <= k <= sigs.len(),
        forall|j: int| 0 <= j < k ==> is_running_sig(#[trigger] sigs[j]),
        k < sigs.len() ==> !is_running_sig(sigs[k]),
    ensures
        first_stop(sigs) == k,
    decreases sigs.len(),
{
    if sigs.len() > 0 {
        if !is_running_sig(sigs.first()) {
            assert(k == 0);
        } else {
            assert(k >= 1);
            assert(forall|j: int| 0 <= j < k - 1
                ==> is_running_sig(#[trigger] sigs.drop_first()[j]));
            lemma_first_stop_at(sigs.drop_first(), k - 1);
        }
    }
}

/// Outcome of running the transfer engine's chunk loop over in-memory data.
#[derive(Debug)]
pub enum RunOutcome {
    /// Every chunk was written: the final content and its content hash.
    Completed { content: Vec<u8>, hash: String },
    /// A pause signal stopped the loop; the partial artifact is preserved
    /// for a later resume.
    Paused { partial: Vec<u8> },
    /// A cancel signal stopped the loop; the partial artifact is deleted.
    Cancelled,
}

/// The per-chunk loop of the transfer engine, over in-memory data: start from
/// the partial artifact (kept when appending, truncated otherwise); before
/// each chunk consult the control signal observed at that point; on pause
/// keep what was written, on cancellation drop it; when the body is
/// exhausted, hash the completed content.
pub fn run_transfer(
    partial: Vec<u8>,
    append: bool,
    chunks: &Vec<Vec<u8>>,
    sigs: &Vec<Option<SignalState>>,
) -> (r: RunOutcome)
    requires
        sigs@.len() == chunks@.len(),
    ensures
        ({
            let base = transfer_base(partial@, append);
            let bodies = chunks@.map_values(|c: Vec<u8>| c@);
            let k = first_stop(sigs@);
            match r {
                RunOutcome::Completed { content, hash } => {
                    &&& k == sigs@.len()
                    &&& content@ == base + concat_chunks(bodies)
                    &&& hash@ == hex_lower_of(sha256_digest_of(content@))
                },
                RunOutcome::Paused { partial: kept } => {
                    &&& k < sigs@.len()
                    &&& sigs@[k] == Some(SignalState::Paused)
                    &&& kept@ == base + concat_chunks(bodies.take(k))
                },
                RunOutcome::Cancelled => {
                    &&& k < sigs@.len()
                    &&& sigs@[k] == Some(SignalState::Cancelled)
                },
            }
        }),
{
    let ghost base = transfer_base(partial@, append);
    let ghost bodies = chunks@.map_values(|c: Vec<u8>| c@);
    let mut buf: Vec<u8> = if append {
        partial
    } else {
        Vec::new()
    };
    proof {
        assert(bodies.take(0) =~= Seq::<Seq<u8>>::empty());
        assert(buf@ =~= base + concat_chunks(bodies.take(0)));
    }
    let mut i: usize = 0;
    while i < chunks.len()
        invariant
            sigs@.len() == chunks@.len(),
            base == transfer_base(partial@, append),
            bodies == chunks@.map_values(|c: Vec<u8>| c@),
            i <= chunks@.len(),
            forall|j: int| 0 <= j < i ==> is_running_sig(#[trigger] sigs@[j]),
            buf@ == base + concat_chunks(bodies.take(i as int)),
        decreases chunks@.len() - i,
    {
        let sig = sigs[i];
        match chunk_action(sig) {
            ChunkAction::Proceed => {
                let ghost before = buf@;
                let chunk_len = chunks[i].len();
                let mut j: usize = 0;
                while j < chunk_len
                    invariant
                        i < chunks@.len(),
                        j <= chunk_len,
                        chunk_len == chunks@[i as int]@.len(),
                        buf@ == before + chunks@[i as int]@.subrange(0, j as int),
                    decreases chunk_len - j,
                {
                    buf.push(chunks[i][j]);
                    j = j + 1;
                    proof {
                        assert(buf@ =~= before + chunks@[i as int]@.subrange(0, j as int));
                    }
                }
                i = i + 1;
                proof {
                    assert(chunks@[i - 1]@.subrange(0, chunk_len as int) =~= chunks@[i - 1]@);
                    assert(bodies.take(i as int).drop_last() =~= bodies.take(i - 1));
                    assert(bodies.take(i as int).last() == chunks@[i - 1]@);
                    assert(buf@ =~= base + concat_chunks(bodies.take(i as int)));
                }
            },
            ChunkAction::StopPaused => {
                proof {
                    lemma_first_stop_at(sigs@, i as int);
                }
                return RunOutcome::Paused { partial: buf };
            },
            ChunkAction::StopCancelled => {
                proof {
                    lemma_first_stop_at(sigs@, i as int);
                }
                return RunOutcome::Cancelled;
            },
        }
    }
    proof {
        lemma_first_stop_at(sigs@, sigs@.len() as int);
        assert(bodies.take(chunks@.len() as int) =~= bodies);
    }
    let hash = sha256_hex(buf.as_slice());
    RunOutcome::Completed { content: buf, hash }
}

/// Law: resuming an interrupted transfer never re-transfers bytes already
/// present in the partial artifact. When the artifact holds the first
/// `offset` bytes of the content and the honored range request returns the
/// rest, appending reconstructs the content exactly, and its hash equals that
/// of a fresh full download.
pub proof fn lemma_resume_never_retransfers(content: Seq<u8>, offset: int)
    requires
        0 <= offset <= content.len(),
    ensures
        transfer_base(content.take(offset), true) + content.skip(offset) == content,
        sha256_digest_of(transfer_base(content.take(offset), true) + content.skip(offset))
            == sha256_digest_of(content),
{
    assert(content.take(offset) + content.skip(offset) =~= content);
}

/// Law: when the server ignores the range request, the engine restarts from
/// zero: whatever stale bytes the partial artifact held are truncated, and
/// streaming the full body still produces exactly the full content, with the
/// same hash as a fresh download.
pub proof fn lemma_restart_ignores_stale_artifact(stale: Seq<u8>, content: Seq<u8>)
    ensures
        transfer_base(stale, false) + content == content,
        sha256_digest_of(transfer_base(stale, false) + content) == sha256_digest_of(content),
{
    assert(transfer_base(stale, false) + content =~= content);
}

} // verus!
