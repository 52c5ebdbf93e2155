//! One feed across passes: where it comes from, where it is published, its
//! last content and its last build marker.
use vstd::prelude::*;
use crate::registry::{DedupRegistry, EntryV};
use crate::rewrite::{rewrite, rewrite_element};
use crate::text::{chars_of, push_str, string_of};
use crate::xml::{describe_parse_error, describe_write_error, parse_document, parsed_document, render, rendered};

verus! {

/// A whitespace character, as `char::is_whitespace` has it (the Unicode
/// `White_Space` property).
pub open spec fn is_white(c: char) -> bool {
    ('\u{9}' <= c && c <= '\u{d}') || c == ' ' || c == '\u{85}' || c == '\u{a0}' || c == '\u{1680}'
        || ('\u{2000}' <= c && c <= '\u{200a}') || c == '\u{2028}' || c == '\u{2029}' || c
        == '\u{202f}' || c == '\u{205f}' || c == '\u{3000}'
}

/// The end of the line that starts at `i`: the next line feed, or the end.
pub open spec fn line_end(s: Seq<char>, i: int) -> int
    decreases s.len() - i,
{
    if 0 <= i < s.len() && s[i] != '\n' {
        line_end(s, i + 1)
    } else {
        i
    }
}

/// The first position from `i` on, before `e`, that is no whitespace.
pub open spec fn skip_white(s: Seq<char>, i: int, e: int) -> int
    decreases e - i,
{
    if 0 <= i < e && e <= s.len() && is_white(s[i]) {
        skip_white(s, i + 1, e)
    } else {
        i
    }
}

/// The end of `s[a..e]` without its trailing whitespace.
pub open spec fn drop_white(s: Seq<char>, a: int, e: int) -> int
    decreases e - a,
{
    if 0 <= a < e && e <= s.len() && is_white(s[e - 1]) {
        drop_white(s, a, e - 1)
    } else {
        e
    }
}

/// The text that opens a build-marker line.
pub open spec fn marker_tag() -> Seq<char> {
    "<lastBuildDate>"@
}

/// `s[a..e]` starts with `p`.
pub open spec fn starts_with_at(s: Seq<char>, a: int, e: int, p: Seq<char>) -> bool {
    a + p.len() <= e && s.subrange(a, a + p.len()) == p
}

pub proof fn lemma_line_end(s: Seq<char>, i: int)
    requires
        0 <= i <= s.len(),
    ensures
        i <= line_end(s, i) <= s.len(),
    decreases s.len() - i,
{
    if i < s.len() && s[i] != '\n' {
        lemma_line_end(s, i + 1);
    }
}

pub proof fn lemma_drop_white(s: Seq<char>, a: int, e: int)
    requires
        0 <= a <= e <= s.len(),
    ensures
        a <= drop_white(s, a, e) <= e,
    decreases e - a,
{
    if a < e && is_white(s[e - 1]) {
        lemma_drop_white(s, a, e - 1);
    }
}

/// The first build-marker line at or after `i`, trimmed: a line whose text,
/// leading whitespace aside, starts with `<lastBuildDate>`.
pub open spec fn marker_from(s: Seq<char>, i: int) -> Option<Seq<char>>
    decreases s.len() - i,
{
    if i < 0 || i >= s.len() {
        None
    } else {
        let e = line_end(s, i);
        let a = skip_white(s, i, e);
        if starts_with_at(s, a, e, marker_tag()) {
            Some(s.subrange(a, drop_white(s, a, e)))
        } else if e < s.len() {
            proof {
                lemma_line_end(s, i);
            }
            marker_from(s, e + 1)
        } else {
            None
        }
    }
}

/// The build marker of a feed's text.
pub open spec fn build_marker(text: Seq<char>) -> Option<Seq<char>> {
    marker_from(text, 0)
}

/// Whether a newly fetched text counts as changed after the marker `last`:
/// it does where its marker differs, or where it has none.
pub open spec fn changed_since(last: Seq<char>, text: Seq<char>) -> bool {
    match build_marker(text) {
        Some(m) => m != last,
        None => true,
    }
}

/// The marker kept after a fetch of `text`.
pub open spec fn marker_after(last: Seq<char>, text: Seq<char>) -> Seq<char> {
    match build_marker(text) {
        Some(m) => m,
        None => last,
    }
}

/// Two fetches whose texts carry the same build marker: the second reports
/// no change.
pub proof fn lemma_same_marker_unchanged(last: Seq<char>, first: Seq<char>, second: Seq<char>)
    requires
        build_marker(first) is Some,
        build_marker(second) == build_marker(first),
    ensures
        !changed_since(marker_after(last, first), second),
{
}

/// A fetch without a build marker always counts as a change.
pub proof fn lemma_no_marker_changed(last: Seq<char>, text: Seq<char>)
    requires
        build_marker(text) is None,
    ensures
        changed_since(last, text),
{
}

fn is_white_exec(c: char) -> (r: bool)
    ensures
        r == is_white(c),
{
    ('\u{9}' <= c && c <= '\u{d}') || c == ' ' || c == '\u{85}' || c == '\u{a0}' || c == '\u{1680}'
        || ('\u{2000}' <= c && c <= '\u{200a}') || c == '\u{2028}' || c == '\u{2029}' || c
        == '\u{202f}' || c == '\u{205f}' || c == '\u{3000}'
}

fn starts_with_exec(s: &Vec<char>, a: usize, e: usize, p: &Vec<char>) -> (r: bool)
    requires
        a <= e <= s@.len(),
    ensures
        r == starts_with_at(s@, a as int, e as int, p@),
{
    if e - a < p.len() {
        return false;
    }
    let mut k: usize = 0;
    while k < p.len()
        invariant
            a + p@.len() <= e <= s@.len(),
            k <= p@.len(),
            forall|j: int| 0 <= j < k ==> #[trigger] p@[j] == s@[a + j],
        decreases p@.len() - k,
    {
        if s[a + k] != p[k] {
            assert(s@.subrange(a as int, a + p@.len())[k as int] != p@[k as int]);
            return false;
        }
        k = k + 1;
    }
    assert(s@.subrange(a as int, a + p@.len()) =~= p@);
    true
}

/// The build marker of `text`; see `build_marker`.
pub fn find_build_marker(text: &str) -> (r: Option<String>)
    ensures
        r matches Some(m) ==> build_marker(text@) == Some(m@),
        r is None ==> build_marker(text@) is None,
{
    let s = chars_of(text);
    let tag = chars_of("<lastBuildDate>");
    let mut i: usize = 0;
    while i < s.len()
        invariant
            i <= s@.len(),
            s@ == text@,
            tag@ == marker_tag(),
            marker_from(s@, 0) == marker_from(s@, i as int),
        decreases s@.len() - i,
    {
        let mut e = i;
        while e < s.len() && s[e] != '\n'
            invariant
                i <= e <= s@.len(),
                line_end(s@, e as int) == line_end(s@, i as int),
            decreases s@.len() - e,
        {
            e = e + 1;
        }
        let mut a = i;
        while a < e && is_white_exec(s[a])
            invariant
                i <= a <= e <= s@.len(),
                skip_white(s@, a as int, e as int) == skip_white(s@, i as int, e as int),
            decreases e - a,
        {
            a = a + 1;
        }
        if starts_with_exec(&s, a, e, &tag) {
            let mut b = e;
            while b > a && is_white_exec(s[b - 1])
                invariant
                    a <= b <= e <= s@.len(),
                    drop_white(s@, a as int, b as int) == drop_white(s@, a as int, e as int),
                decreases b - a,
            {
                b = b - 1;
            }
            proof {
                lemma_drop_white(s@, a as int, e as int);
            }
            return Some(string_of(&s, a, b));
        }
        if e == s.len() {
            return None;
        }
        i = e + 1;
    }
    None
}

/// The value of a feed.
pub struct FeedV {
    pub url: Seq<char>,
    pub filename: Seq<char>,
    pub content: Seq<char>,
    pub last_build_date: Seq<char>,
}

/// A feed: its source URL, the path it is published at, its last content
/// and the build marker of its last fetch.
pub struct Feed {
    url: String,
    filename: String,
    content: String,
    last_build_date: String,
}

impl View for Feed {
    type V = FeedV;

    closed spec fn view(&self) -> FeedV {
        FeedV {
            url: self.url@,
            filename: self.filename@,
            content: self.content@,
            last_build_date: self.last_build_date@,
        }
    }
}

/// Why a pass over a feed failed; each carries the feed's URL and a
/// description of the cause.
#[derive(Debug)]
pub enum DedupError {
    /// The content is no well-formed XML document.
    Parse { feed: String, cause: String },
    /// A channel of the document has no link.
    MissingChannelLink { feed: String, cause: String },
    /// The rewritten document could not be written out.
    Render { feed: String, cause: String },
}

/// The URL of the feed that an error is about.
pub open spec fn error_feed(e: DedupError) -> Seq<char> {
    match e {
        DedupError::Parse { feed, .. } => feed@,
        DedupError::MissingChannelLink { feed, .. } => feed@,
        DedupError::Render { feed, .. } => feed@,
    }
}

/// The description of an error's cause.
pub open spec fn error_cause(e: DedupError) -> Seq<char> {
    match e {
        DedupError::Parse { cause, .. } => cause@,
        DedupError::MissingChannelLink { cause, .. } => cause@,
        DedupError::Render { cause, .. } => cause@,
    }
}

/// The stage of the pass that an error comes from.
pub open spec fn error_stage(e: DedupError) -> Seq<char> {
    match e {
        DedupError::Parse { .. } => "XML parse error"@,
        DedupError::MissingChannelLink { .. } => "structure error"@,
        DedupError::Render { .. } => "XML write error"@,
    }
}

impl DedupError {
    /// The URL of the feed that failed.
    pub fn feed(&self) -> (r: &String)
        ensures
            r@ == error_feed(*self),
    {
        match self {
            DedupError::Parse { feed, .. } => feed,
            DedupError::MissingChannelLink { feed, .. } => feed,
            DedupError::Render { feed, .. } => feed,
        }
    }

    /// A description of the failure: the feed, the stage and the cause.
    pub fn message(&self) -> (r: String)
        ensures
            r@ == "RSS feed "@ + error_feed(*self) + " "@ + error_stage(*self) + ": "@ + error_cause(*self),
    {
        let (stage, feed, cause) = match self {
            DedupError::Parse { feed, cause } => ("XML parse error", feed, cause),
            DedupError::MissingChannelLink { feed, cause } => ("structure error", feed, cause),
            DedupError::Render { feed, cause } => ("XML write error", feed, cause),
        };
        let mut m = String::new();
        push_str(&mut m, "RSS feed ");
        push_str(&mut m, feed.as_str());
        push_str(&mut m, " ");
        push_str(&mut m, stage);
        push_str(&mut m, ": ");
        push_str(&mut m, cause.as_str());
        proof {
            assert(m@ =~= "RSS feed "@ + error_feed(*self) + " "@ + error_stage(*self) + ": "@ + error_cause(*self));
        }
        m
    }
}

/// The indentation of the rewritten documents.
pub open spec fn layout_indent() -> Seq<char> {
    "    "@
}

/// The line separator of the rewritten documents.
pub open spec fn layout_line_separator() -> Seq<char> {
    "\n"@
}

/// What a pass makes of a feed's content: the new content and registry, or
/// `None` where the pass fails.
pub open spec fn pass_outcome(content: Seq<char>, reg: Seq<EntryV>, max_age: u64, now: i64) -> Option<(Seq<char>, Seq<EntryV>)> {
    match parsed_document(content) {
        None => None,
        Some(tree) => match rewrite_element(tree, reg, Seq::empty(), max_age, now) {
            None => None,
            Some((out, reg2)) => match rendered(out, layout_indent(), layout_line_separator(), true) {
                None => None,
                Some(text) => Some((text, reg2)),
            },
        },
    }
}

impl Feed {
    /// A feed from `url`, published at `filename`, not fetched yet.
    pub fn new(url: &str, filename: &str) -> (r: Feed)
        ensures
            r@.url == url@,
            r@.filename == filename@,
            r@.content == Seq::<char>::empty(),
            r@.last_build_date == Seq::<char>::empty(),
    {
        Feed {
            url: url.to_string(),
            filename: filename.to_string(),
            content: String::new(),
            last_build_date: String::new(),
        }
    }

    pub fn url(&self) -> (r: &String)
        ensures
            r@ == self@.url,
    {
        &self.url
    }

    pub fn filename(&self) -> (r: &String)
        ensures
            r@ == self@.filename,
    {
        &self.filename
    }

    pub fn content(&self) -> (r: &String)
        ensures
            r@ == self@.content,
    {
        &self.content
    }

    pub fn last_build_date(&self) -> (r: &String)
        ensures
            r@ == self@.last_build_date,
    {
        &self.last_build_date
    }

    /// The sibling path the content is written to before it is renamed over
    /// the published path.
    pub fn temp_filename(&self) -> (r: String)
        ensures
            r@ == self@.filename + ".tmp"@,
    {
        let mut t = self.filename.clone();
        push_str(&mut t, ".tmp");
        t
    }

    /// Takes a freshly fetched text as the feed's content and tells whether
    /// it changed since the last fetch, going by its build marker alone.
    pub fn read(&mut self, text: String) -> (r: bool)
        ensures
            final(self)@.content == text@,
            final(self)@.url == old(self)@.url,
            final(self)@.filename == old(self)@.filename,
            r == changed_since(old(self)@.last_build_date, text@),
            final(self)@.last_build_date == marker_after(old(self)@.last_build_date, text@),
    {
        let marker = find_build_marker(text.as_str());
        self.content = text;
        match marker {
            None => true,
            Some(m) => {
                let modified = self.last_build_date != m;
                self.last_build_date = m;
                modified
            },
        }
    }

    /// One tick for this feed: takes the fetched text and, where it changed,
    /// rewrites it. Returns whether there is new content to publish; where
    /// nothing changed, no pass runs and the registry stays as it was.
    pub fn update(&mut self, text: String, registry: &mut DedupRegistry, max_age: u64, now: i64) -> (r: Result<bool, DedupError>)
        requires
            old(registry).wf(),
        ensures
            final(registry).wf(),
            final(self)@.url == old(self)@.url,
            final(self)@.filename == old(self)@.filename,
            final(self)@.last_build_date == marker_after(old(self)@.last_build_date, text@),
            !changed_since(old(self)@.last_build_date, text@) ==> r == Ok::<bool, DedupError>(false)
                && final(registry)@ == old(registry)@ && final(self)@.content == text@,
            changed_since(old(self)@.last_build_date, text@) ==> match pass_outcome(text@, old(registry)@, max_age, now) {
                None => r is Err && final(registry)@ == old(registry)@ && final(self)@.content == text@,
                Some((out, reg)) => r == Ok::<bool, DedupError>(true) && final(self)@.content == out && final(registry)@ == reg,
            },
    {
        if !self.read(text) {
            return Ok(false);
        }
        match self.remove_duplicates(registry, max_age, now) {
            Ok(()) => Ok(true),
            Err(e) => Err(e),
        }
    }

    /// Rewrites the content against the registry, dropping items older than
    /// `max_age` hours (0: no limit) at instant `now`. Where the pass fails,
    /// neither the content nor the registry changes.
    pub fn remove_duplicates(&mut self, registry: &mut DedupRegistry, max_age: u64, now: i64) -> (r: Result<(), DedupError>)
        requires
            old(registry).wf(),
        ensures
            final(registry).wf(),
            final(self)@.url == old(self)@.url,
            final(self)@.filename == old(self)@.filename,
            final(self)@.last_build_date == old(self)@.last_build_date,
            match pass_outcome(old(self)@.content, old(registry)@, max_age, now) {
                None => r is Err && final(self)@ == old(self)@ && final(registry)@ == old(registry)@,
                Some((text, reg)) => r is Ok && final(self)@.content == text && final(registry)@ == reg,
            },
            r matches Err(e) ==> error_feed(e) == old(self)@.url,
            r matches Err(e) ==> (e is Parse <==> parsed_document(old(self)@.content) is None),
            r matches Err(e) ==> (e is MissingChannelLink <==> (parsed_document(old(self)@.content) matches Some(
                tree,
            ) && rewrite_element(tree, old(registry)@, Seq::empty(), max_age, now) is None)),
    {
        let root = match parse_document(self.content.as_str()) {
            Err(e) => {
                return Err(DedupError::Parse { feed: self.url.clone(), cause: describe_parse_error(&e) });
            },
            Ok(root) => root,
        };
        let mark = registry.len();
        let ghost before = registry@;
        let top = String::new();
        match rewrite(&root, registry, &top, max_age, now) {
            Err(()) => {
                registry.truncate(mark);
                assert(registry@ =~= before);
                Err(DedupError::MissingChannelLink { feed: self.url.clone(), cause: "a channel has no link".to_string() })
            },
            Ok(out) => match render(&out, "    ", "\n", true) {
                Err(e) => {
                    registry.truncate(mark);
                    assert(registry@ =~= before);
                    Err(DedupError::Render { feed: self.url.clone(), cause: describe_write_error(&e) })
                },
                Ok(text) => {
                    self.content = text;
                    Ok(())
                },
            },
        }
    }
}

} // verus!
