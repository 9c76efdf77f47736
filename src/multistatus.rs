//! Scanning a multi-status document: a character-level automaton that finds
//! the `response` elements under a `multistatus` root and the text of their
//! href, content length, last-modified and entity-tag properties. Elements
//! are read in the root's namespace prefix; elements under another prefix
//! are passed over, and processing instructions and declarations skipped.
//! Each closing tag must name the element it closes.

use vstd::prelude::*;
use crate::discovery::{entries_from_responses, entries_spec, RawResponse};
use crate::sync::DiscoveredEntry;
use crate::text::{contains, str_contains, str_eq};

verus! {

/// A property whose text is kept.
#[derive(Clone, Copy, Debug, PartialEq, Eq, Structural)]
pub enum Field {
    Href,
    Length,
    Modified,
    Etag,
}

/// Text ranges found so far for the response being read.
#[derive(Clone, Copy, Debug)]
pub struct Found {
    pub href: Option<(usize, usize)>,
    pub length: Option<(usize, usize)>,
    pub modified: Option<(usize, usize)>,
    pub etag: Option<(usize, usize)>,
    pub collection: bool,
}

#[derive(Clone, Copy, Debug, PartialEq, Eq, Structural)]
pub enum Mode {
    /// Between tags.
    Text,
    /// Just after `<`.
    TagStart,
    /// Inside a tag's name.
    TagName,
    /// After a tag's name, before `>`.
    TagRest,
    /// Inside `<?...>` or `<!...>`.
    Skip,
}

/// State of the automaton.
#[derive(Clone, Copy, Debug)]
pub struct Scan {
    pub mode: Mode,
    pub closing: bool,
    /// The last character seen in the tag was `/`.
    pub slash: bool,
    /// Local name of the current tag, as a range.
    pub name_start: usize,
    pub name_end: usize,
    /// Namespace prefix of the current tag, as a range (empty where none).
    pub prefix_start: usize,
    pub prefix_end: usize,
    /// Prefix of the root element: elements with another prefix belong to
    /// other vocabularies and are passed over.
    pub root_prefix_start: usize,
    pub root_prefix_end: usize,
    /// Where the current tag's `<` stands.
    pub tag_start: usize,
    pub depth: usize,
    pub root_seen: bool,
    pub root_ok: bool,
    pub error: bool,
    pub in_response: bool,
    /// The property being read and where its text starts.
    pub capture: Option<(Field, usize)>,
    pub cur: Found,
}

pub open spec fn empty_found() -> Found {
    Found { href: None, length: None, modified: None, etag: None, collection: false }
}

pub open spec fn init_scan() -> Scan {
    Scan {
        mode: Mode::Text,
        closing: false,
        slash: false,
        name_start: 0,
        name_end: 0,
        prefix_start: 0,
        prefix_end: 0,
        root_prefix_start: 0,
        root_prefix_end: 0,
        tag_start: 0,
        depth: 0,
        root_seen: false,
        root_ok: false,
        error: false,
        in_response: false,
        capture: None,
        cur: empty_found(),
    }
}

pub open spec fn is_space(c: char) -> bool {
    c == ' ' || c == '\t' || c == '\n' || c == '\r'
}

pub open spec fn local_name(s: Seq<char>, st: Scan) -> Seq<char> {
    s.subrange(st.name_start as int, st.name_end as int)
}

pub open spec fn prefix(s: Seq<char>, st: Scan) -> Seq<char> {
    s.subrange(st.prefix_start as int, st.prefix_end as int)
}

pub open spec fn root_prefix(s: Seq<char>, st: Scan) -> Seq<char> {
    s.subrange(st.root_prefix_start as int, st.root_prefix_end as int)
}

pub open spec fn field_of(n: Seq<char>) -> Option<Field> {
    if n == "href"@ {
        Some(Field::Href)
    } else if n == "getcontentlength"@ {
        Some(Field::Length)
    } else if n == "getlastmodified"@ {
        Some(Field::Modified)
    } else if n == "getetag"@ {
        Some(Field::Etag)
    } else {
        None
    }
}

/// Effect of an opening tag.
pub open spec fn on_open(n: Seq<char>, st: Scan, text_start: usize) -> Scan {
    if n == "response"@ {
        Scan { in_response: true, cur: empty_found(), capture: None, ..st }
    } else if st.in_response && field_of(n).is_some() {
        Scan { capture: Some((field_of(n).unwrap(), text_start)), ..st }
    } else if st.in_response && n == "collection"@ {
        Scan { cur: Found { collection: true, ..st.cur }, ..st }
    } else {
        st
    }
}

/// Stores a property's text range; empty text leaves it missing.
pub open spec fn store(f: Found, field: Field, a: usize, b: usize) -> Found {
    if a >= b {
        f
    } else {
        match field {
            Field::Href => Found { href: Some((a, b)), ..f },
            Field::Length => Found { length: Some((a, b)), ..f },
            Field::Modified => Found { modified: Some((a, b)), ..f },
            Field::Etag => Found { etag: Some((a, b)), ..f },
        }
    }
}

/// Effect of a closing tag whose `<` stands at `lt`.
pub open spec fn on_close(n: Seq<char>, st: Scan, out: Seq<Found>, lt: usize) -> (Scan, Seq<Found>) {
    if n == "response"@ && st.in_response {
        (Scan { in_response: false, capture: None, ..st }, out.push(st.cur))
    } else if st.capture.is_some() && field_of(n) == Some(st.capture.unwrap().0) {
        (
            Scan {
                capture: None,
                cur: store(st.cur, st.capture.unwrap().0, st.capture.unwrap().1, lt),
                ..st
            },
            out,
        )
    } else {
        (st, out)
    }
}

/// Prefix and local name of the current tag, as written.
pub open spec fn qname(s: Seq<char>, st: Scan) -> Seq<char> {
    s.subrange(st.prefix_start as int, st.name_end as int)
}

/// The attribute that binds a prefix (or the default namespace) to `DAV:`.
pub open spec fn dav_declaration(p: Seq<char>) -> Seq<char> {
    if p.len() == 0 {
        "xmlns=\"DAV:\""@
    } else {
        "xmlns:"@ + p + "=\"DAV:\""@
    }
}

/// Whether the tag ending at `i` binds its own prefix to the `DAV:` namespace.
pub open spec fn declares_dav(s: Seq<char>, st: Scan, i: usize) -> bool {
    contains(s.subrange(st.tag_start as int, i as int), dav_declaration(prefix(s, st)))
}

/// Whether a closing tag names the element it closes, the last one opened.
pub open spec fn closes_top(s: Seq<char>, st: Scan, stk: Seq<(usize, usize)>) -> bool {
    stk.len() > 0 && s.subrange(stk.last().0 as int, stk.last().1 as int) == qname(s, st)
}

/// A tag ends with the `>` at `i`. `stk` holds the names of the open elements.
pub open spec fn finish_tag(
    s: Seq<char>,
    st: Scan,
    out: Seq<Found>,
    stk: Seq<(usize, usize)>,
    i: usize,
) -> (Scan, Seq<Found>, Seq<(usize, usize)>) {
    let n = local_name(s, st);
    let st = Scan { mode: Mode::Text, ..st };
    if st.closing {
        if st.depth == 0 || !closes_top(s, st, stk) {
            (Scan { error: true, ..st }, out, stk)
        } else {
            let st = Scan { depth: (st.depth - 1) as usize, ..st };
            if prefix(s, st) == root_prefix(s, st) {
                let (a, b) = on_close(n, st, out, st.tag_start);
                (a, b, stk.drop_last())
            } else {
                (st, out, stk.drop_last())
            }
        }
    } else if st.depth == 0 && st.root_seen {
        (Scan { error: true, ..st }, out, stk)
    } else {
        let st = if st.depth == 0 {
            Scan {
                root_seen: true,
                root_ok: n == "multistatus"@ && declares_dav(s, st, i),
                root_prefix_start: st.prefix_start,
                root_prefix_end: st.prefix_end,
                ..st
            }
        } else {
            st
        };
        let stk2 = if st.slash {
            stk
        } else {
            stk.push((st.prefix_start, st.name_end))
        };
        let st = if st.slash {
            st
        } else {
            Scan { depth: (st.depth + 1) as usize, ..st }
        };
        if prefix(s, st) != root_prefix(s, st) {
            (st, out, stk2)
        } else {
            let opened = on_open(n, st, (i + 1) as usize);
            if st.slash {
                let (a, b) = on_close(n, opened, out, st.tag_start);
                (a, b, stk2)
            } else {
                (opened, out, stk2)
            }
        }
    }
}

/// One character at position `i`.
pub open spec fn step(
    s: Seq<char>,
    st: Scan,
    out: Seq<Found>,
    stk: Seq<(usize, usize)>,
    i: usize,
) -> (Scan, Seq<Found>, Seq<(usize, usize)>) {
    let c = s[i as int];
    if st.error {
        (st, out, stk)
    } else {
        match st.mode {
            Mode::Text => if c == '<' {
                (Scan { mode: Mode::TagStart, tag_start: i, ..st }, out, stk)
            } else {
                (st, out, stk)
            },
            Mode::TagStart => if c == '/' {
                (
                    Scan {
                        mode: Mode::TagName,
                        closing: true,
                        slash: false,
                        name_start: (i + 1) as usize,
                        name_end: (i + 1) as usize,
                        prefix_start: (i + 1) as usize,
                        prefix_end: (i + 1) as usize,
                        ..st
                    },
                    out,
                    stk,
                )
            } else if c == '?' || c == '!' {
                (Scan { mode: Mode::Skip, ..st }, out, stk)
            } else if c == '>' || is_space(c) {
                (Scan { error: true, ..st }, out, stk)
            } else {
                let start = if c == ':' {
                    (i + 1) as usize
                } else {
                    i
                };
                (
                    Scan {
                        mode: Mode::TagName,
                        closing: false,
                        slash: false,
                        name_start: start,
                        name_end: start,
                        prefix_start: start,
                        prefix_end: start,
                        ..st
                    },
                    out,
                    stk,
                )
            },
            Mode::TagName => if c == '>' {
                finish_tag(s, Scan { name_end: i, ..st }, out, stk, i)
            } else if c == '/' {
                (Scan { mode: Mode::TagRest, name_end: i, slash: true, ..st }, out, stk)
            } else if is_space(c) {
                (Scan { mode: Mode::TagRest, name_end: i, slash: false, ..st }, out, stk)
            } else if c == ':' {
                (
                    Scan {
                        name_start: (i + 1) as usize,
                        name_end: (i + 1) as usize,
                        prefix_end: i,
                        ..st
                    },
                    out,
                    stk,
                )
            } else {
                (st, out, stk)
            },
            Mode::TagRest => if c == '>' {
                finish_tag(s, st, out, stk, i)
            } else if c == '/' {
                (Scan { slash: true, ..st }, out, stk)
            } else if is_space(c) {
                (st, out, stk)
            } else {
                (Scan { slash: false, ..st }, out, stk)
            },
            Mode::Skip => if c == '>' {
                (Scan { mode: Mode::Text, ..st }, out, stk)
            } else {
                (st, out, stk)
            },
        }
    }
}

/// The automaton after the first `n` characters.
pub open spec fn run(s: Seq<char>, n: nat) -> (Scan, Seq<Found>, Seq<(usize, usize)>)
    decreases n,
{
    if n == 0 || n > s.len() {
        (init_scan(), Seq::empty(), Seq::empty())
    } else {
        let (st, out, stk) = run(s, (n - 1) as nat);
        step(s, st, out, stk, (n - 1) as usize)
    }
}

/// Whether the whole document was well formed under a `multistatus` root of
/// the `DAV:` namespace: every tag closed, each by its own name.
pub open spec fn accepted(st: Scan) -> bool {
    !st.error && st.root_seen && st.root_ok && st.depth == 0 && st.mode == Mode::Text
}

/// The text of a range.
pub open spec fn text_of(s: Seq<char>, r: Option<(usize, usize)>) -> Option<Seq<char>> {
    match r {
        Some((a, b)) => Some(s.subrange(a as int, b as int)),
        None => None,
    }
}

pub open spec fn opt_view(o: Option<String>) -> Option<Seq<char>> {
    match o {
        Some(t) => Some(t@),
        None => None,
    }
}

/// Whether a response's recorded properties match its ranges.
pub open spec fn raw_matches(s: Seq<char>, f: Found, r: RawResponse) -> bool {
    &&& r.href@ == (if f.href.is_some() { text_of(s, f.href).unwrap() } else { Seq::empty() })
    &&& text_of(s, f.length) == opt_view(r.content_length)
    &&& text_of(s, f.modified) == opt_view(r.last_modified)
    &&& text_of(s, f.etag) == opt_view(r.etag)
    &&& r.is_collection == f.collection
}

/// Why a listing could not be read.
#[derive(Clone, Copy, Debug, PartialEq, Eq, Structural)]
pub enum DiscoveryError {
    /// Not well formed, or without a `multistatus` root.
    MalformedResponse,
}

/// A tag of another namespace than the root's, opening or closing, well
/// nested inside the root, records nothing: the responses found so far, the
/// response being read and the property being read stay as they were.
pub proof fn lemma_foreign_tag_records_nothing(
    s: Seq<char>,
    st: Scan,
    out: Seq<Found>,
    stk: Seq<(usize, usize)>,
    i: usize,
)
    requires
        !st.error,
        st.depth > 0,
        st.root_seen,
        prefix(s, st) != root_prefix(s, st),
        st.closing ==> closes_top(s, st, stk),
    ensures
        ({
            let (st2, out2, _) = finish_tag(s, st, out, stk, i);
            &&& out2 == out
            &&& st2.cur == st.cur
            &&& st2.capture == st.capture
            &&& st2.in_response == st.in_response
            &&& !st2.error
        }),
{
    let t = Scan { mode: Mode::Text, ..st };
    assert(prefix(s, t) == prefix(s, st) && root_prefix(s, t) == root_prefix(s, st));
    if st.closing {
        let t2 = Scan { depth: (t.depth - 1) as usize, ..t };
        assert(prefix(s, t2) == prefix(s, st) && root_prefix(s, t2) == root_prefix(s, st));
        assert(closes_top(s, t, stk) == closes_top(s, st, stk));
    } else {
        let t2 = if t.slash {
            t
        } else {
            Scan { depth: (t.depth + 1) as usize, ..t }
        };
        assert(prefix(s, t2) == prefix(s, st) && root_prefix(s, t2) == root_prefix(s, st));
    }
}

pub open spec fn range_ok(r: Option<(usize, usize)>, n: nat) -> bool {
    match r {
        Some((a, b)) => a <= b && b <= n,
        None => true,
    }
}

pub open spec fn found_ok(f: Found, n: nat) -> bool {
    range_ok(f.href, n) && range_ok(f.length, n) && range_ok(f.modified, n) && range_ok(f.etag, n)
}

/// Bounds that hold after `n` characters.
pub open spec fn scan_ok(st: Scan, out: Seq<Found>, n: nat) -> bool {
    &&& st.prefix_start <= st.name_start <= st.name_end <= n
    &&& st.prefix_start <= st.prefix_end <= n
    &&& st.root_prefix_start <= st.root_prefix_end <= n
    &&& st.tag_start <= n
    &&& st.depth <= n
    &&& (st.capture matches Some((_, a)) ==> a <= n)
    &&& found_ok(st.cur, n)
    &&& forall|k: int| 0 <= k < out.len() ==> found_ok(#[trigger] out[k], n)
}

/// Name ranges of the open elements lie within the first `n` characters.
pub open spec fn stack_ok(stk: Seq<(usize, usize)>, n: nat) -> bool {
    forall|k: int| 0 <= k < stk.len() ==> (#[trigger] stk[k]).0 <= stk[k].1 <= n
}

fn declares_dav_exec(s: &str, st: &Scan, i: usize) -> (r: bool)
    requires
        st.tag_start <= i <= s@.len(),
        st.prefix_start <= st.prefix_end <= s@.len(),
    ensures
        r == declares_dav(s@, *st, i),
{
    proof {
        reveal_strlit("xmlns=\"DAV:\"");
        reveal_strlit("xmlns:");
        reveal_strlit("=\"DAV:\"");
    }
    let p = s.substring_char(st.prefix_start, st.prefix_end);
    let needle = if p.unicode_len() == 0 {
        String::from_str("xmlns=\"DAV:\"")
    } else {
        let mut n = String::from_str("xmlns:");
        n.append(p);
        n.append("=\"DAV:\"");
        n
    };
    str_contains(s.substring_char(st.tag_start, i), needle.as_str())
}

fn field_of_exec(n: &str) -> (r: Option<Field>)
    ensures
        r == field_of(n@),
{
    if str_eq(n, "href") {
        Some(Field::Href)
    } else if str_eq(n, "getcontentlength") {
        Some(Field::Length)
    } else if str_eq(n, "getlastmodified") {
        Some(Field::Modified)
    } else if str_eq(n, "getetag") {
        Some(Field::Etag)
    } else {
        None
    }
}

fn on_open_exec(n: &str, st: &mut Scan, text_start: usize, Ghost(bound): Ghost<nat>, Ghost(out): Ghost<Seq<Found>>)
    requires
        scan_ok(*old(st), out, bound),
        text_start <= bound,
    ensures
        *final(st) == on_open(n@, *old(st), text_start),
        scan_ok(*final(st), out, bound),
{
    if str_eq(n, "response") {
        st.in_response = true;
        st.cur = Found { href: None, length: None, modified: None, etag: None, collection: false };
        st.capture = None;
    } else if st.in_response {
        match field_of_exec(n) {
            Some(f) => {
                st.capture = Some((f, text_start));
            },
            None => {
                if str_eq(n, "collection") {
                    st.cur.collection = true;
                }
            },
        }
    }
}

fn on_close_exec(n: &str, st: &mut Scan, out: &mut Vec<Found>, lt: usize, Ghost(bound): Ghost<nat>)
    requires
        scan_ok(*old(st), old(out)@, bound),
        lt <= bound,
    ensures
        (*final(st), final(out)@) == on_close(n@, *old(st), old(out)@, lt),
        scan_ok(*final(st), final(out)@, bound),
{
    if str_eq(n, "response") && st.in_response {
        out.push(st.cur);
        st.in_response = false;
        st.capture = None;
    } else {
        match st.capture {
            Some((f, a)) => {
                if field_of_exec(n) == Some(f) {
                    if a < lt {
                        match f {
                            Field::Href => {
                                st.cur.href = Some((a, lt));
                            },
                            Field::Length => {
                                st.cur.length = Some((a, lt));
                            },
                            Field::Modified => {
                                st.cur.modified = Some((a, lt));
                            },
                            Field::Etag => {
                                st.cur.etag = Some((a, lt));
                            },
                        }
                    }
                    st.capture = None;
                }
            },
            None => {},
        }
    }
}

#[verifier::rlimit(50)]
fn finish_tag_exec(s: &str, st: &mut Scan, out: &mut Vec<Found>, stk: &mut Vec<(usize, usize)>, i: usize)
    requires
        i < s@.len(),
        scan_ok(*old(st), old(out)@, i as nat),
        stack_ok(old(stk)@, i as nat),
    ensures
        (*final(st), final(out)@, final(stk)@) == finish_tag(s@, *old(st), old(out)@, old(stk)@, i),
        scan_ok(*final(st), final(out)@, (i + 1) as nat),
        stack_ok(final(stk)@, (i + 1) as nat),
{
    let _len = s.unicode_len();
    let n = s.substring_char(st.name_start, st.name_end);
    st.mode = Mode::Text;
    if st.closing {
        let top_matches = if stk.len() == 0 {
            false
        } else {
            let (a, b) = stk[stk.len() - 1];
            str_eq(s.substring_char(a, b), s.substring_char(st.prefix_start, st.name_end))
        };
        if st.depth == 0 || !top_matches {
            st.error = true;
        } else {
            st.depth = st.depth - 1;
            stk.pop();
            let dav = str_eq(
                s.substring_char(st.prefix_start, st.prefix_end),
                s.substring_char(st.root_prefix_start, st.root_prefix_end),
            );
            if dav {
                let lt = st.tag_start;
                on_close_exec(n, st, out, lt, Ghost((i + 1) as nat));
            }
        }
    } else if st.depth == 0 && st.root_seen {
        st.error = true;
    } else {
        if st.depth == 0 {
            st.root_seen = true;
            let is_root_name = str_eq(n, "multistatus");
            let dav_ns = declares_dav_exec(s, st, i);
            st.root_ok = is_root_name && dav_ns;
            st.root_prefix_start = st.prefix_start;
            st.root_prefix_end = st.prefix_end;
        }
        let slash = st.slash;
        if !slash {
            stk.push((st.prefix_start, st.name_end));
            st.depth = st.depth + 1;
        }
        let dav = str_eq(
            s.substring_char(st.prefix_start, st.prefix_end),
            s.substring_char(st.root_prefix_start, st.root_prefix_end),
        );
        if dav {
            let lt = st.tag_start;
            on_open_exec(n, st, i + 1, Ghost((i + 1) as nat), Ghost(out@));
            if slash {
                on_close_exec(n, st, out, lt, Ghost((i + 1) as nat));
            }
        }
    }
}

fn step_exec(s: &str, st: &mut Scan, out: &mut Vec<Found>, stk: &mut Vec<(usize, usize)>, i: usize)
    requires
        i < s@.len(),
        scan_ok(*old(st), old(out)@, i as nat),
        stack_ok(old(stk)@, i as nat),
    ensures
        (*final(st), final(out)@, final(stk)@) == step(s@, *old(st), old(out)@, old(stk)@, i),
        scan_ok(*final(st), final(out)@, (i + 1) as nat),
        stack_ok(final(stk)@, (i + 1) as nat),
{
    let _len = s.unicode_len();
    let c = s.get_char(i);
    if st.error {
        return ;
    }
    match st.mode {
        Mode::Text => {
            if c == '<' {
                st.mode = Mode::TagStart;
                st.tag_start = i;
            }
        },
        Mode::TagStart => {
            if c == '/' {
                st.mode = Mode::TagName;
                st.closing = true;
                st.slash = false;
                st.name_start = i + 1;
                st.name_end = i + 1;
                st.prefix_start = i + 1;
                st.prefix_end = i + 1;
            } else if c == '?' || c == '!' {
                st.mode = Mode::Skip;
            } else if c == '>' || c == ' ' || c == '\t' || c == '\n' || c == '\r' {
                st.error = true;
            } else {
                let start = if c == ':' {
                    i + 1
                } else {
                    i
                };
                st.mode = Mode::TagName;
                st.closing = false;
                st.slash = false;
                st.name_start = start;
                st.name_end = start;
                st.prefix_start = start;
                st.prefix_end = start;
            }
        },
        Mode::TagName => {
            if c == '>' {
                st.name_end = i;
                finish_tag_exec(s, st, out, stk, i);
            } else if c == '/' {
                st.mode = Mode::TagRest;
                st.name_end = i;
                st.slash = true;
            } else if c == ' ' || c == '\t' || c == '\n' || c == '\r' {
                st.mode = Mode::TagRest;
                st.name_end = i;
                st.slash = false;
            } else if c == ':' {
                st.name_start = i + 1;
                st.name_end = i + 1;
                st.prefix_end = i;
            }
        },
        Mode::TagRest => {
            if c == '>' {
                finish_tag_exec(s, st, out, stk, i);
            } else if c == '/' {
                st.slash = true;
            } else if !(c == ' ' || c == '\t' || c == '\n' || c == '\r') {
                st.slash = false;
            }
        },
        Mode::Skip => {
            if c == '>' {
                st.mode = Mode::Text;
            }
        },
    }
}

fn text_range(s: &str, r: Option<(usize, usize)>) -> (t: Option<String>)
    requires
        range_ok(r, s@.len()),
    ensures
        opt_view(t) == text_of(s@, r),
{
    match r {
        Some((a, b)) => Some(s.substring_char(a, b).to_string()),
        None => None,
    }
}

fn materialize(s: &str, f: Found) -> (r: RawResponse)
    requires
        found_ok(f, s@.len()),
    ensures
        raw_matches(s@, f, r),
{
    let href = match f.href {
        Some((a, b)) => s.substring_char(a, b).to_string(),
        None => String::new(),
    };
    RawResponse {
        href,
        content_length: text_range(s, f.length),
        last_modified: text_range(s, f.modified),
        etag: text_range(s, f.etag),
        is_collection: f.collection,
    }
}

/// Reads the response elements of a multi-status document, in order. Fails
/// with `MalformedResponse` when a closing tag does not name the element it
/// closes, when an element or tag is left open at the end, when a second root
/// follows the first, or when the root is not `multistatus` with its prefix
/// bound to `DAV:` (as `xmlns:p="DAV:"`, or `xmlns="DAV:"` without a prefix).
pub fn scan_multistatus(s: &str) -> (r: Result<Vec<RawResponse>, DiscoveryError>)
    ensures
        r.is_ok() == accepted(run(s@, s@.len()).0),
        r matches Ok(v) ==> v@.len() == run(s@, s@.len()).1.len() && forall|k: int|
            0 <= k < v@.len() ==> raw_matches(s@, #[trigger] run(s@, s@.len()).1[k], v@[k]),
{
    let n = s.unicode_len();
    let mut st = Scan {
        mode: Mode::Text,
        closing: false,
        slash: false,
        name_start: 0,
        name_end: 0,
        prefix_start: 0,
        prefix_end: 0,
        root_prefix_start: 0,
        root_prefix_end: 0,
        tag_start: 0,
        depth: 0,
        root_seen: false,
        root_ok: false,
        error: false,
        in_response: false,
        capture: None,
        cur: Found { href: None, length: None, modified: None, etag: None, collection: false },
    };
    let mut found: Vec<Found> = Vec::new();
    let mut open: Vec<(usize, usize)> = Vec::new();
    let mut i: usize = 0;
    while i < n
        invariant
            n == s@.len(),
            i <= n,
            (st, found@, open@) == run(s@, i as nat),
            scan_ok(st, found@, i as nat),
            stack_ok(open@, i as nat),
        decreases n - i,
    {
        step_exec(s, &mut st, &mut found, &mut open, i);
        i = i + 1;
    }
    if !(!st.error && st.root_seen && st.root_ok && st.depth == 0) {
        return Err(DiscoveryError::MalformedResponse);
    }
    match st.mode {
        Mode::Text => {},
        _ => {
            return Err(DiscoveryError::MalformedResponse);
        },
    }
    let mut out: Vec<RawResponse> = Vec::new();
    let mut k: usize = 0;
    while k < found.len()
        invariant
            n == s@.len(),
            k <= found@.len(),
            out@.len() == k,
            forall|t: int| 0 <= t < found@.len() ==> found_ok(#[trigger] found@[t], n as nat),
            forall|t: int| 0 <= t < k ==> raw_matches(s@, #[trigger] found@[t], out@[t]),
        decreases found@.len() - k,
    {
        let r = materialize(s, found[k]);
        out.push(r);
        k = k + 1;
    }
    Ok(out)
}

/// Parses a multi-status listing of the collection `root_href` into
/// discovered entries, leaving out the collection itself.
pub fn parse_listing(s: &str, root_href: &str) -> (r: Result<Vec<DiscoveredEntry>, DiscoveryError>)
    ensures
        r.is_ok() == accepted(run(s@, s@.len()).0),
        r matches Ok(v) ==> exists|raws: Seq<RawResponse>|
            {
                &&& raws.len() == run(s@, s@.len()).1.len()
                &&& (forall|k: int|
                    0 <= k < raws.len() ==> raw_matches(s@, #[trigger] run(s@, s@.len()).1[k], raws[k]))
                &&& v@ == entries_spec(raws, root_href@)
            },
{
    match scan_multistatus(s) {
        Ok(raws) => {
            let entries = entries_from_responses(&raws, root_href);
            assert(forall|k: int|
                0 <= k < raws@.len() ==> raw_matches(s@, #[trigger] run(s@, s@.len()).1[k], raws@[k]));
            Ok(entries)
        },
        Err(e) => Err(e),
    }
}

} // verus!
