//! Schema identifiers: the shapes a `$id` string can take.
//!
//! Parsing tries, in order: a fragment (`#...`), an absolute URL, an RFC 6901
//! JSON pointer, and a bare path without whitespace. The first shape that
//! fits wins; a string fitting none of them is rejected.
use vstd::prelude::*;

use crate::error::{Error, ErrorKind};

verus! {

/// Mathematical model of a schema identifier.
pub enum IdModel {
    Url(Seq<char>),
    Pointer(Seq<char>),
    Fragment(Seq<char>),
    Path(Seq<char>),
}

/// A schema identifier: an absolute URL, a JSON pointer, a fragment, or a
/// bare path. URLs are kept in their normalized text form, pointers in the
/// text they were parsed from.
#[derive(Debug, Clone, PartialEq)]
pub enum SchemaId {
    Url(String),
    Pointer(String),
    Fragment(Fragment),
    Path(Path),
}

/// The text after the `#` marker of a fragment identifier.
#[derive(Debug, Clone, PartialEq)]
pub struct Fragment(pub String);

/// A fragment identifier must start with `#`.
#[derive(Debug, Clone, Copy, PartialEq, Eq, Structural)]
pub struct InvalidFragment;

/// A bare identifier without whitespace.
#[derive(Debug, Clone, PartialEq)]
pub struct Path(pub String);

/// A bare path identifier must not contain whitespace.
#[derive(Debug, Clone, Copy, PartialEq, Eq, Structural)]
pub struct InvalidPath;

impl View for SchemaId {
    type V = IdModel;

    open spec fn view(&self) -> IdModel {
        match self {
            SchemaId::Url(u) => IdModel::Url(u@),
            SchemaId::Pointer(p) => IdModel::Pointer(p@),
            SchemaId::Fragment(f) => IdModel::Fragment(f.0@),
            SchemaId::Path(p) => IdModel::Path(p.0@),
        }
    }
}

/// The normalized text of an absolute URL, or nothing when the string does
/// not parse as one. What the `url` crate decides.
pub uninterp spec fn url_normal(s: Seq<char>) -> Option<Seq<char>>;

/// The first segment of a URL's path, or nothing when the string is not an
/// absolute URL or its path has no segments. What the `url` crate decides.
pub uninterp spec fn url_first_segment(s: Seq<char>) -> Option<Seq<char>>;

/// Relies on `url::Url::parse` and the `Display` serialization of `Url`:
/// an absolute URL's normalized text. Parsing that text again returns it
/// unchanged, and it starts with the URL's scheme, never with `#`.
#[verifier::external_body]
pub(crate) fn url_parse_normalize(s: &str) -> (r: Option<String>)
    ensures
        match r {
            Some(t) => url_normal(s@) == Some(t@) && url_normal(t@) == Some(t@) && t@.len() > 0
                && t@[0] != '#',
            None => url_normal(s@) is None,
        },
{
    match url::Url::parse(s) {
        Ok(u) => Some(u.to_string()),
        Err(_) => None,
    }
}

/// Relies on `url::Url::parse` and `Url::path_segments`: the first segment
/// of an absolute URL's path, when the path splits into segments.
#[verifier::external_body]
pub(crate) fn url_path_first_segment(s: &str) -> (r: Option<String>)
    ensures
        match r {
            Some(t) => url_first_segment(s@) == Some(t@),
            None => url_first_segment(s@) is None,
        },
{
    match url::Url::parse(s) {
        Ok(u) => match u.path_segments() {
            Some(mut segments) => segments.next().map(|p| p.to_string()),
            None => None,
        },
        Err(_) => None,
    }
}

/// Which strings, apart from URI-fragment forms, are RFC 6901 JSON
/// pointers: the empty string, or text starting with `/` in which every
/// `~` is followed by `0` or `1`.
pub open spec fn spec_pointer_ok(s: Seq<char>) -> bool {
    s.len() == 0 || (s[0] == '/' && forall|i: int|
        0 <= i < s.len() && #[trigger] s[i] == '~' ==> i + 1 < s.len() && (s[i + 1] == '0' || s[i
            + 1] == '1'))
}

/// Relies on the `json_pointer` crate's parser: for strings not starting
/// with `#`, it accepts exactly the empty string and `/`-led text whose
/// every `~` is followed by `0` or `1`; its rendering of such a pointer is
/// the parsed text itself.
#[verifier::external_body]
pub(crate) fn pointer_accepts(s: &str) -> (r: bool)
    requires
        s@.len() == 0 || s@[0] != '#',
    ensures
        r == spec_pointer_ok(s@),
{
    let parsed: core::result::Result<
        json_pointer::JsonPointer<String, Vec<String>>,
        json_pointer::ParseError,
    > = s.parse();
    parsed.is_ok()
}

/// The whitespace characters, as Rust's `char::is_whitespace` counts them.
pub open spec fn spec_is_whitespace(c: char) -> bool {
    c == ' ' || c == '\t' || c == '\n' || c == '\r' || c == '\u{b}' || c == '\u{c}' || c
        == '\u{85}' || c == '\u{a0}' || c == '\u{1680}' || c == '\u{2000}' || c == '\u{2001}' || c
        == '\u{2002}' || c == '\u{2003}' || c == '\u{2004}' || c == '\u{2005}' || c == '\u{2006}'
        || c == '\u{2007}' || c == '\u{2008}' || c == '\u{2009}' || c == '\u{200a}' || c
        == '\u{2028}' || c == '\u{2029}' || c == '\u{202f}' || c == '\u{205f}' || c == '\u{3000}'
}

fn is_whitespace_char(c: char) -> (r: bool)
    ensures
        r == spec_is_whitespace(c),
{
    match c {
        ' ' | '\t' | '\n' | '\r' | '\u{b}' | '\u{c}' | '\u{85}' | '\u{a0}' | '\u{1680}'
            | '\u{2000}' | '\u{2001}' | '\u{2002}' | '\u{2003}' | '\u{2004}' | '\u{2005}'
            | '\u{2006}' | '\u{2007}' | '\u{2008}' | '\u{2009}' | '\u{200a}' | '\u{2028}'
            | '\u{2029}' | '\u{202f}' | '\u{205f}' | '\u{3000}' => true,
        _ => false,
    }
}

/// Whether the string contains any whitespace character.
pub open spec fn spec_has_whitespace(s: Seq<char>) -> bool {
    exists|i: int| 0 <= i < s.len() && spec_is_whitespace(s[i])
}

fn has_whitespace(s: &str) -> (r: bool)
    ensures
        r == spec_has_whitespace(s@),
{
    let n = s.unicode_len();
    let mut i: usize = 0;
    while i < n
        invariant
            0 <= i <= n,
            n == s@.len(),
            forall|j: int| 0 <= j < i ==> !spec_is_whitespace(s@[j]),
        decreases n - i,
    {
        if is_whitespace_char(s.get_char(i)) {
            return true;
        }
        i = i + 1;
    }
    false
}

impl Fragment {
    /// Parses a fragment identifier: any string starting with `#`; the
    /// marker is stripped.
    pub fn from_str(s: &str) -> (r: core::result::Result<Fragment, InvalidFragment>)
        ensures
            r is Ok <==> s@.len() > 0 && s@[0] == '#',
            r matches Ok(f) ==> f.0@ == s@.subrange(1, s@.len() as int),
    {
        let n = s.unicode_len();
        if n > 0 && s.get_char(0) == '#' {
            let rest = s.substring_char(1, n);
            Ok(Fragment(String::from_str(rest)))
        } else {
            Err(InvalidFragment)
        }
    }

    /// The textual form, with the `#` marker put back.
    pub fn to_string(&self) -> (r: String)
        ensures
            r@ == "#"@ + self.0@,
    {
        let mut s = String::from_str("#");
        s.append(self.0.as_str());
        s
    }
}

impl Path {
    /// Parses a bare path identifier: any string without whitespace.
    pub fn from_str(s: &str) -> (r: core::result::Result<Path, InvalidPath>)
        ensures
            r is Ok <==> !spec_has_whitespace(s@),
            r matches Ok(p) ==> p.0@ == s@,
    {
        if has_whitespace(s) {
            Err(InvalidPath)
        } else {
            Ok(Path(String::from_str(s)))
        }
    }

    /// The textual form: the path itself.
    pub fn to_string(&self) -> (r: String)
        ensures
            r@ == self.0@,
    {
        self.0.clone()
    }
}

/// The textual form of an identifier: how it serializes.
pub open spec fn spec_id_text(m: IdModel) -> Seq<char> {
    match m {
        IdModel::Url(u) => u,
        IdModel::Pointer(p) => p,
        IdModel::Fragment(f) => "#"@ + f,
        IdModel::Path(p) => p,
    }
}

/// What parsing an identifier string yields: the first shape that fits,
/// in the order fragment, URL, JSON pointer, bare path.
pub open spec fn spec_parse_id(s: Seq<char>) -> Option<IdModel> {
    if s.len() > 0 && s[0] == '#' {
        Some(IdModel::Fragment(s.subrange(1, s.len() as int)))
    } else if url_normal(s) is Some {
        Some(IdModel::Url(url_normal(s)->Some_0))
    } else if spec_pointer_ok(s) {
        Some(IdModel::Pointer(s))
    } else if !spec_has_whitespace(s) {
        Some(IdModel::Path(s))
    } else {
        None
    }
}

/// The invariant a parsed identifier satisfies: its shape really is the
/// first of the four that fits its text.
pub open spec fn wf_id(m: IdModel) -> bool {
    match m {
        IdModel::Url(u) => url_normal(u) == Some(u) && u.len() > 0 && u[0] != '#',
        IdModel::Pointer(p) => spec_pointer_ok(p) && (p.len() == 0 || p[0] != '#') && url_normal(
            p,
        ) is None,
        IdModel::Fragment(_) => true,
        IdModel::Path(p) => !spec_has_whitespace(p) && (p.len() == 0 || p[0] != '#')
            && url_normal(p) is None && !spec_pointer_ok(p),
    }
}

/// A parsed identifier's textual form parses back to the identifier.
pub proof fn lemma_id_round_trip(m: IdModel)
    requires
        wf_id(m),
    ensures
        spec_parse_id(spec_id_text(m)) == Some(m),
{
    match m {
        IdModel::Fragment(f) => {
            reveal_strlit("#");
            let t = "#"@ + f;
            assert(t[0] == '#');
            assert(t.subrange(1, t.len() as int) =~= f);
        },
        _ => {},
    }
}

impl SchemaId {
    /// Parses a `$id` string, trying fragment, URL, JSON pointer, and bare
    /// path in that order; the first shape that fits wins.
    pub fn parse(s: &str) -> (r: core::result::Result<SchemaId, Error>)
        ensures
            match r {
                Ok(id) => spec_parse_id(s@) == Some(id@) && wf_id(id@),
                Err(e) => spec_parse_id(s@) is None && e.kind is InvalidIdentifier,
            },
    {
        match Fragment::from_str(s) {
            Ok(f) => Ok(SchemaId::Fragment(f)),
            Err(_) => {
                match url_parse_normalize(s) {
                    Some(t) => Ok(SchemaId::Url(t)),
                    None => {
                        if pointer_accepts(s) {
                            Ok(SchemaId::Pointer(String::from_str(s)))
                        } else {
                            match Path::from_str(s) {
                                Ok(p) => Ok(SchemaId::Path(p)),
                                Err(_) => Err(Error::new(ErrorKind::InvalidIdentifier)),
                            }
                        }
                    },
                }
            },
        }
    }

    /// The textual form: how the identifier serializes back to a string.
    pub fn to_string(&self) -> (r: String)
        ensures
            r@ == spec_id_text(self@),
    {
        match self {
            SchemaId::Url(u) => u.clone(),
            SchemaId::Pointer(p) => p.clone(),
            SchemaId::Fragment(f) => f.to_string(),
            SchemaId::Path(p) => p.to_string(),
        }
    }
}

} // verus!
