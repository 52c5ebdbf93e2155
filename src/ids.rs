//! Identity of an article, derived from its link alone.
//!
//! The path of the link is searched first for a UUID, then for a run of at
//! least six digits (underscores may stand inside the run); failing both, the
//! whole link is the identity. The host of the link scopes the identity.
use vstd::prelude::*;
use crate::text::{chars_of, push_char, push_str, string_of};
use crate::xml::opt_str_view;

verus! {

broadcast use vstd::string::group_string_axioms;

/// A hexadecimal digit, in either case.
pub open spec fn is_hex(c: char) -> bool {
    ('0' <= c && c <= '9') || ('a' <= c && c <= 'f') || ('A' <= c && c <= 'F')
}

/// A character that may stand in a digit run.
pub open spec fn is_run_char(c: char) -> bool {
    ('0' <= c && c <= '9') || c == '_'
}

/// What the character at offset `k` of a canonical UUID may be: hex groups of
/// 8-4-4-4-12 separated by hyphens, version nibble 1 to 5, variant nibble
/// 8, 9, a or b.
pub open spec fn uuid_char_ok(k: int, c: char) -> bool {
    if k == 8 || k == 13 || k == 18 || k == 23 {
        c == '-'
    } else if k == 14 {
        '1' <= c && c <= '5'
    } else if k == 19 {
        c == '8' || c == '9' || c == 'a' || c == 'b' || c == 'A' || c == 'B'
    } else {
        is_hex(c)
    }
}

/// `w` is a canonical UUID.
pub open spec fn is_uuid_text(w: Seq<char>) -> bool {
    &&& w.len() == 36
    &&& forall|k: int| 0 <= k < 36 ==> #[trigger] uuid_char_ok(k, w[k])
}

/// `w` is a UUID in hyphenated form, whatever its version and variant.
pub open spec fn is_hyphenated_hex(w: Seq<char>) -> bool {
    &&& w.len() == 36
    &&& forall|k: int|
        0 <= k < 36 ==> (#[trigger] w[k] == '-' <==> (k == 8 || k == 13 || k == 18 || k == 23))
    &&& forall|k: int| 0 <= k < 36 && w[k] != '-' ==> is_hex(#[trigger] w[k])
}

/// A canonical UUID starts at offset `i` of `s`.
pub open spec fn uuid_at(s: Seq<char>, i: int) -> bool {
    0 <= i && i + 36 <= s.len() && is_uuid_text(s.subrange(i, i + 36))
}

/// The first offset at or after `i` where a canonical UUID starts.
pub open spec fn first_uuid_from(s: Seq<char>, i: int) -> Option<int>
    decreases s.len() - i,
{
    if i < 0 || i >= s.len() {
        None
    } else if uuid_at(s, i) {
        Some(i)
    } else {
        first_uuid_from(s, i + 1)
    }
}

/// The end of the run of digits and underscores that starts at `i`.
pub open spec fn run_end(s: Seq<char>, i: int) -> int
    decreases s.len() - i,
{
    if 0 <= i < s.len() && is_run_char(s[i]) {
        run_end(s, i + 1)
    } else {
        i
    }
}

/// The first run of at least six digits or underscores at or after `i`, as
/// the bounds of its leftmost start and its longest extent.
pub open spec fn first_run_from(s: Seq<char>, i: int) -> Option<(int, int)>
    decreases s.len() - i,
{
    if i < 0 || i >= s.len() {
        None
    } else if run_end(s, i) - i >= 6 {
        Some((i, run_end(s, i)))
    } else {
        first_run_from(s, i + 1)
    }
}

/// The offset that `first_uuid_from` finds is one where a UUID starts, and
/// no UUID starts between `i` and it.
pub proof fn lemma_first_uuid_from(s: Seq<char>, i: int)
    ensures
        first_uuid_from(s, i) matches Some(j) ==> {
            &&& uuid_at(s, j)
            &&& 0 <= i <= j
            &&& forall|k: int| i <= k < j ==> !uuid_at(s, k)
        },
        first_uuid_from(s, i) is None && 0 <= i ==> forall|k: int| i <= k ==> !uuid_at(s, k),
    decreases s.len() - i,
{
    if 0 <= i < s.len() && !uuid_at(s, i) {
        lemma_first_uuid_from(s, i + 1);
        assert forall|k: int| i <= k && !(i + 1 <= k) implies !uuid_at(s, k) by {}
    }
}

/// A run ends at or after its start, and within the sequence.
pub proof fn lemma_run_end(s: Seq<char>, i: int)
    requires
        0 <= i <= s.len(),
    ensures
        i <= run_end(s, i) <= s.len(),
        forall|k: int| i <= k < run_end(s, i) ==> is_run_char(#[trigger] s[k]),
        run_end(s, i) < s.len() ==> !is_run_char(s[run_end(s, i)]),
    decreases s.len() - i,
{
    if i < s.len() && is_run_char(s[i]) {
        lemma_run_end(s, i + 1);
    }
}

/// The run that `first_run_from` finds is a maximal run of at least six
/// digits or underscores, and no such run starts between `i` and it.
pub proof fn lemma_first_run_from(s: Seq<char>, i: int)
    requires
        0 <= i,
    ensures
        first_run_from(s, i) matches Some((a, b)) ==> {
            &&& i <= a
            &&& a + 6 <= b <= s.len()
            &&& b == run_end(s, a)
            &&& forall|k: int| i <= k < a ==> run_end(s, k) - k < 6
        },
        first_run_from(s, i) is None ==> forall|k: int| i <= k < s.len() ==> run_end(s, k) - k < 6,
    decreases s.len() - i,
{
    if i < s.len() {
        lemma_run_end(s, i);
        if run_end(s, i) - i < 6 {
            lemma_first_run_from(s, i + 1);
        }
    }
}

/// Where a UUID starts at `j` and none between `i` and `j`, the first one
/// from `i` is at `j`.
proof fn lemma_first_uuid_is(s: Seq<char>, i: int, j: int)
    requires
        0 <= i <= j,
        uuid_at(s, j),
        forall|k: int| i <= k < j ==> !uuid_at(s, k),
    ensures
        first_uuid_from(s, i) == Some(j),
    decreases j - i,
{
    if i < j {
        lemma_first_uuid_is(s, i + 1, j);
    }
}

/// Where a long run starts at `j` and none between `i` and `j`, the first one
/// from `i` is the one at `j`.
proof fn lemma_first_run_is(s: Seq<char>, i: int, j: int)
    requires
        0 <= i <= j < s.len(),
        run_end(s, j) - j >= 6,
        forall|k: int| i <= k < j ==> run_end(s, k) - k < 6,
    ensures
        first_run_from(s, i) == Some((j, run_end(s, j))),
    decreases j - i,
{
    if i < j {
        lemma_first_run_is(s, i + 1, j);
    }
}

/// The identity that a link with the given path has: its first UUID, else its
/// first digit run, else the link itself.
pub open spec fn id_of(link: Seq<char>, path: Seq<char>) -> Seq<char> {
    match first_uuid_from(path, 0) {
        Some(i) => path.subrange(i, i + 36),
        None => match first_run_from(path, 0) {
            Some((a, b)) => path.subrange(a, b),
            None => link,
        },
    }
}

/// The host a link is scoped by; a URL without a host has the empty one.
pub open spec fn host_text(host: Option<Seq<char>>) -> Seq<char> {
    match host {
        Some(h) => h,
        None => Seq::empty(),
    }
}

/// The `(id, host)` identity of a link, `None` where it is no URL.
pub open spec fn identity_of(link: Seq<char>) -> Option<(Seq<char>, Seq<char>)> {
    match url_components(link) {
        None => None,
        Some((host, path)) => Some((id_of(link, path), host_text(host))),
    }
}

/// What the URL parser makes of a string: `None` where it is no absolute URL,
/// else its host, if any, as the parser normalizes it, and its path.
pub uninterp spec fn url_components(link: Seq<char>) -> Option<(Option<Seq<char>>, Seq<char>)>;

/// Whether the UUID parser accepts a string.
pub uninterp spec fn uuid_accepts(s: Seq<char>) -> bool;

/// The identity of a link depends on the link alone: equal links have equal
/// identities, however often it is computed.
pub proof fn lemma_identity_deterministic(a: Seq<char>, b: Seq<char>)
    requires
        a == b,
    ensures
        identity_of(a) == identity_of(b),
{
}

/// A link whose path holds a UUID, first at offset `i`, has that UUID as its
/// id, whatever digit runs the path also holds.
pub proof fn lemma_uuid_priority(link: Seq<char>, host: Option<Seq<char>>, path: Seq<char>, i: int)
    requires
        url_components(link) == Some((host, path)),
        uuid_at(path, i),
        forall|k: int| 0 <= k < i ==> !uuid_at(path, k),
    ensures
        identity_of(link) == Some((path.subrange(i, i + 36), host_text(host))),
{
    lemma_first_uuid_is(path, 0, i);
}

/// A link whose path holds no UUID but a run of at least six digits or
/// underscores, first starting at `a`, has that whole run as its id.
pub proof fn lemma_digit_run_fallback(link: Seq<char>, host: Option<Seq<char>>, path: Seq<char>, a: int)
    requires
        url_components(link) == Some((host, path)),
        forall|k: int| !uuid_at(path, k),
        0 <= a < path.len(),
        run_end(path, a) - a >= 6,
        forall|k: int| 0 <= k < a ==> run_end(path, k) - k < 6,
    ensures
        identity_of(link) == Some((path.subrange(a, run_end(path, a)), host_text(host))),
{
    lemma_first_uuid_from(path, 0);
    if first_uuid_from(path, 0) is Some {
        assert(uuid_at(path, first_uuid_from(path, 0)->0));
    }
    lemma_first_run_is(path, 0, a);
}

/// A link whose path holds neither a UUID nor a long digit run is its own id.
pub proof fn lemma_whole_link_fallback(link: Seq<char>, host: Option<Seq<char>>, path: Seq<char>)
    requires
        url_components(link) == Some((host, path)),
        forall|k: int| !uuid_at(path, k),
        forall|k: int| 0 <= k < path.len() ==> run_end(path, k) - k < 6,
    ensures
        identity_of(link) == Some((link, host_text(host))),
{
    lemma_first_uuid_from(path, 0);
    if first_uuid_from(path, 0) is Some {
        assert(uuid_at(path, first_uuid_from(path, 0)->0));
    }
    lemma_first_run_from(path, 0);
    if first_run_from(path, 0) is Some {
        let (a, b) = first_run_from(path, 0)->0;
        assert(run_end(path, a) - a < 6);
    }
}

/// The host and path of a parsed URL.
pub struct UrlParts {
    pub host: Option<String>,
    pub path: String,
}

/// Relies on `url::Url::parse`, and on `Url::host_str` and `Url::path` of
/// its result: the outcome depends on the string alone.
#[verifier::external_body]
fn parse_url(link: &str) -> (r: Option<UrlParts>)
    ensures
        r is None <==> url_components(link@) is None,
        r matches Some(p) ==> url_components(link@) == Some((opt_str_view(p.host), p.path@)),
{
    url::Url::parse(link).ok().map(
        |u| UrlParts { host: u.host_str().map(|h| h.to_string()), path: u.path().to_string() },
    )
}

/// Relies on `uuid::Uuid::parse_str`, which accepts every UUID in hyphenated
/// form.
#[verifier::external_body]
fn uuid_parses(s: &str) -> (r: bool)
    ensures
        r == uuid_accepts(s@),
        is_hyphenated_hex(s@) ==> r,
{
    uuid::Uuid::parse_str(s).is_ok()
}

fn is_hex_char(c: char) -> (r: bool)
    ensures
        r == is_hex(c),
{
    ('0' <= c && c <= '9') || ('a' <= c && c <= 'f') || ('A' <= c && c <= 'F')
}

fn is_run_char_exec(c: char) -> (r: bool)
    ensures
        r == is_run_char(c),
{
    ('0' <= c && c <= '9') || c == '_'
}

fn uuid_char_ok_exec(k: usize, c: char) -> (r: bool)
    ensures
        r == uuid_char_ok(k as int, c),
{
    if k == 8 || k == 13 || k == 18 || k == 23 {
        c == '-'
    } else if k == 14 {
        '1' <= c && c <= '5'
    } else if k == 19 {
        c == '8' || c == '9' || c == 'a' || c == 'b' || c == 'A' || c == 'B'
    } else {
        is_hex_char(c)
    }
}

/// Whether a canonical UUID starts at offset `i` of `s`.
fn uuid_starts_at(s: &Vec<char>, i: usize) -> (r: bool)
    ensures
        r == uuid_at(s@, i as int),
{
    if i > s.len() || s.len() - i < 36 {
        return false;
    }
    let ghost w = s@.subrange(i as int, i + 36);
    let mut k: usize = 0;
    while k < 36
        invariant
            i + 36 <= s.len(),
            w == s@.subrange(i as int, i + 36),
            k <= 36,
            forall|j: int| 0 <= j < k ==> #[trigger] uuid_char_ok(j, w[j]),
        decreases 36 - k,
    {
        if !uuid_char_ok_exec(k, s[i + k]) {
            assert(w[k as int] == s@[i + k]);
            return false;
        }
        assert(w[k as int] == s@[i + k]);
        k = k + 1;
    }
    true
}

/// The offset of the first canonical UUID in `s`.
fn find_uuid(s: &Vec<char>) -> (r: Option<usize>)
    ensures
        r matches Some(i) ==> first_uuid_from(s@, 0) == Some(i as int),
        r is None ==> first_uuid_from(s@, 0) is None,
{
    let mut i: usize = 0;
    while i < s.len()
        invariant
            i <= s@.len(),
            first_uuid_from(s@, 0) == first_uuid_from(s@, i as int),
        decreases s@.len() - i,
    {
        if uuid_starts_at(s, i) {
            return Some(i);
        }
        i = i + 1;
    }
    None
}

/// The end of the run of digits and underscores that starts at `i`.
fn find_run_end(s: &Vec<char>, i: usize) -> (r: usize)
    requires
        i <= s@.len(),
    ensures
        r == run_end(s@, i as int),
        i <= r <= s@.len(),
{
    let mut j = i;
    while j < s.len() && is_run_char_exec(s[j])
        invariant
            i <= j <= s@.len(),
            run_end(s@, j as int) == run_end(s@, i as int),
        decreases s@.len() - j,
    {
        j = j + 1;
    }
    j
}

/// The bounds of the first run of at least six digits or underscores in `s`.
fn find_digit_run(s: &Vec<char>) -> (r: Option<(usize, usize)>)
    ensures
        r matches Some((a, b)) ==> first_run_from(s@, 0) == Some((a as int, b as int)),
        r is None ==> first_run_from(s@, 0) is None,
{
    let mut i: usize = 0;
    while i < s.len()
        invariant
            i <= s@.len(),
            first_run_from(s@, 0) == first_run_from(s@, i as int),
        decreases s@.len() - i,
    {
        let e = find_run_end(s, i);
        if e - i >= 6 {
            return Some((i, e));
        }
        i = i + 1;
    }
    None
}

/// The identity `(id, host)` of an item's link; `None` where the link is no
/// URL. See the module documentation for how `id` is chosen.
pub fn extract_unique_id_and_host_from_url_string(url: &str) -> (r: Option<(String, String)>)
    ensures
        r is None <==> identity_of(url@) is None,
        r matches Some((id, host)) ==> identity_of(url@) == Some((id@, host@)),
{
    let parts = match parse_url(url) {
        None => return None,
        Some(p) => p,
    };
    let host = match parts.host {
        Some(h) => h,
        None => String::new(),
    };
    let path = chars_of(parts.path.as_str());
    let id = match find_uuid(&path) {
        Some(i) => {
            proof {
                lemma_first_uuid_from(path@, 0);
            }
            let candidate = string_of(&path, i, i + 36);
            proof {
                let w = path@.subrange(i as int, i + 36);
                assert(uuid_at(path@, i as int));
                assert forall|k: int| 0 <= k < 36 implies (#[trigger] w[k] == '-' <==> (k == 8
                    || k == 13 || k == 18 || k == 23)) by {
                    assert(uuid_char_ok(k, w[k]));
                }
                assert forall|k: int| 0 <= k < 36 && w[k] != '-' implies is_hex(#[trigger] w[k]) by {
                    assert(uuid_char_ok(k, w[k]));
                }
            }
            assert(is_hyphenated_hex(candidate@));
            if uuid_parses(candidate.as_str()) {
                candidate
            } else {
                url.to_string()
            }
        },
        None => match find_digit_run(&path) {
            Some((a, b)) => {
                proof {
                    lemma_first_run_from(path@, 0);
                }
                string_of(&path, a, b)
            },
            None => url.to_string(),
        },
    };
    Some((id, host))
}

/// A character that file names keep: an ASCII letter or digit.
pub open spec fn is_name_char(c: char) -> bool {
    ('0' <= c && c <= '9') || ('a' <= c && c <= 'z') || ('A' <= c && c <= 'Z')
}

/// `s` with each run of characters other than ASCII letters and digits
/// replaced by one underscore.
pub open spec fn sanitized(s: Seq<char>) -> Seq<char>
    decreases s.len(),
{
    if s.len() == 0 {
        Seq::empty()
    } else {
        let before = sanitized(s.drop_last());
        let c = s.last();
        if is_name_char(c) {
            before.push(c)
        } else if s.len() >= 2 && !is_name_char(s[s.len() - 2]) {
            before
        } else {
            before.push('_')
        }
    }
}

fn is_name_char_exec(c: char) -> (r: bool)
    ensures
        r == is_name_char(c),
{
    ('0' <= c && c <= '9') || ('a' <= c && c <= 'z') || ('A' <= c && c <= 'Z')
}

/// The file name a feed URL is published under: the URL with each run of
/// characters other than ASCII letters and digits made one underscore, and
/// `.rss` appended.
pub fn convert_url_to_filename(url: &str) -> (r: String)
    ensures
        r@ == sanitized(url@) + ".rss"@,
{
    let s = chars_of(url);
    let mut r = String::new();
    let mut i: usize = 0;
    while i < s.len()
        invariant
            i <= s@.len(),
            s@ == url@,
            r@ == sanitized(s@.subrange(0, i as int)),
        decreases s@.len() - i,
    {
        let c = s[i];
        proof {
            let t = s@.subrange(0, i + 1);
            assert(t.drop_last() =~= s@.subrange(0, i as int));
            assert(t.last() == c);
            if i >= 1 {
                assert(t[t.len() - 2] == s@[i - 1]);
            }
        }
        if is_name_char_exec(c) {
            push_char(&mut r, c);
        } else if i >= 1 && !is_name_char_exec(s[i - 1]) {
        } else {
            push_char(&mut r, '_');
        }
        i = i + 1;
    }
    assert(s@.subrange(0, s@.len() as int) =~= s@);
    push_str(&mut r, ".rss");
    r
}

/// The unique file name of a feed: `uuid` followed by the file name of its
/// URL.
pub fn convert_url_to_unique_filename(url: &str, uuid: &str) -> (r: String)
    ensures
        r@ == uuid@ + sanitized(url@) + ".rss"@,
{
    let mut r = uuid.to_string();
    let name = convert_url_to_filename(url);
    push_str(&mut r, name.as_str());
    proof {
        assert(uuid@ + (sanitized(url@) + ".rss"@) =~= uuid@ + sanitized(url@) + ".rss"@);
    }
    r
}

/// Relies on `uuid::Uuid::new_v4` and its `Display`: a random version 4 UUID
/// in lower-case hyphenated form.
#[verifier::external_body]
pub fn generate_uuid() -> (r: String)
    ensures
        is_uuid_text(r@),
{
    uuid::Uuid::new_v4().to_string()
}

} // verus!
