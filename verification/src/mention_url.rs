//! URLs as the `url` and `urlencoding` crates read and write them.

use crate::text::opt_string_view;
use crate::mention_path::{is_letter, is_separator};
use vstd::prelude::*;

verus! {

/// A URL as plain values.
#[derive(Clone, Debug, PartialEq, Eq)]
pub struct UrlParts {
    /// The URL as it is written in full.
    pub text: String,
    pub scheme: String,
    /// The path, percent-encoded.
    pub path: String,
    /// What follows `#`, percent-encoded.
    pub fragment: Option<String>,
    /// The names and values of the query, decoded.
    pub query: Vec<(String, String)>,
}

/// A URL's parts as mathematical values.
#[verifier::ext_equal]
pub struct UrlView {
    pub text: Seq<char>,
    pub scheme: Seq<char>,
    pub path: Seq<char>,
    pub fragment: Option<Seq<char>>,
    pub query: Seq<(Seq<char>, Seq<char>)>,
}

/// The views of names and values.
pub open spec fn pair_views(pairs: Seq<(String, String)>) -> Seq<(Seq<char>, Seq<char>)> {
    pairs.map_values(|pair: (String, String)| (pair.0@, pair.1@))
}

impl View for UrlParts {
    type V = UrlView;

    open spec fn view(&self) -> UrlView {
        UrlView {
            text: self.text@,
            scheme: self.scheme@,
            path: self.path@,
            fragment: opt_string_view(self.fragment),
            query: pair_views(self.query@),
        }
    }
}

/// The view of a URL, or of the words that say why there is none.
pub open spec fn url_result(url: Result<UrlParts, String>) -> Result<UrlView, Seq<char>> {
    match url {
        Ok(url) => Ok(url@),
        Err(reason) => Err(reason@),
    }
}

/// The URL that the `url` crate reads from a text, or its words for why it reads none.
pub uninterp spec fn url_parts(text: Seq<char>) -> Result<UrlView, Seq<char>>;

/// Calls [`url::Url::parse`] and takes the URL apart with its getters, or the error as it displays
/// itself. The outcome depends on the text alone; which texts are URLs, what their parts are, and
/// what is said of the others, is left to the crate.
#[verifier::external_body]
pub(crate) fn read_url(text: &str) -> (url: Result<UrlParts, String>)
    ensures
        url_result(url) == url_parts(text@),
{
    let url = url::Url::parse(text).map_err(|error| error.to_string())?;
    Ok(UrlParts {
        text: url.as_str().to_owned(),
        scheme: url.scheme().to_owned(),
        path: url.path().to_owned(),
        fragment: url.fragment().map(str::to_owned),
        query: url.query_pairs().into_owned().collect(),
    })
}

/// What the `urlencoding` crate decodes from a percent-encoded text, where that is UTF-8.
pub uninterp spec fn percent_decoded(text: Seq<char>) -> Option<Seq<char>>;

/// Calls [`urlencoding::decode`]. The outcome depends on the text alone. A text without `%` is
/// decoded to itself; what the escapes of another stand for is left to the crate.
#[verifier::external_body]
pub(crate) fn decode_percent(text: &str) -> (decoded: Option<String>)
    ensures
        opt_string_view(decoded) == percent_decoded(text@),
        !text@.contains('%') ==> opt_string_view(decoded) == Some(text@),
{
    urlencoding::decode(text).ok().map(|decoded| decoded.into_owned())
}

/// Whether `c` is written in a path as it is, whatever the scheme.
pub open spec fn is_unreserved(c: char) -> bool {
    let code = c as int;
    0x30 <= code <= 0x39 || 0x41 <= code <= 0x5A || 0x61 <= code <= 0x7A || c == '-' || c == '_'
        || c == '.' || c == '~'
}

/// Whether position `at` of a path begins a component `.` or `..`.
pub open spec fn dots_at(path: Seq<char>, at: int) -> bool {
    &&& 0 <= at < path.len()
    &&& path[at] == '.'
    &&& {
        ||| at + 1 == path.len()
        ||| path[at + 1] == '/'
        ||| path[at + 1] == '.' && (at + 2 == path.len() || path[at + 2] == '/')
    }
}

/// Whether a URL keeps a path apart from escapes: it begins with a slash, has no empty, `.` or
/// `..` component and no drive, and holds no `%`, backslash, tab or line break.
pub open spec fn is_kept_path(path: Seq<char>) -> bool {
    &&& path.len() > 0
    &&& path[0] == '/'
    &&& forall|i: int|
        0 <= i < path.len() ==> !is_rewritten(#[trigger] path[i])
    &&& forall|i: int|
        0 <= i < path.len() && #[trigger] path[i] == '/' ==> !dots_at(path, i + 1) && !(i + 1
            < path.len() && path[i + 1] == '/')
    &&& !(path.len() >= 3 && (path[2] == ':' || path[2] == '|'))
}

/// Whether a URL's path cannot hold `c` as it is and get it back.
pub open spec fn is_rewritten(c: char) -> bool {
    c == '%' || c == '\\' || c == '\t' || c == '\n' || c == '\r'
}

/// Whether a URL keeps a path as it is.
pub open spec fn is_verbatim_path(path: Seq<char>) -> bool {
    &&& is_kept_path(path)
    &&& forall|i: int| 0 <= i < path.len() ==> is_unreserved(#[trigger] path[i]) || path[i] == '/'
}

/// Whether a URL keeps a fragment as it is.
pub open spec fn is_verbatim_fragment(fragment: Seq<char>) -> bool {
    forall|i: int|
        0 <= i < fragment.len() ==> is_unreserved(#[trigger] fragment[i]) || fragment[i] == ':'
}

/// How many characters some names and values have in all.
pub open spec fn pairs_len(pairs: Seq<(Seq<char>, Seq<char>)>) -> nat
    decreases pairs.len(),
{
    if pairs.len() == 0 {
        0
    } else {
        pairs_len(pairs.drop_last()) + pairs.last().0.len() + pairs.last().1.len()
    }
}

/// The most characters that the parts of a URL up to its last index are built from: a URL takes up
/// to twelve for each, and indexes where its query and its fragment begin with 32 bits.
pub const MAX_URL_CHARS: usize = 0x0FFF_FFFF;

/// The two URLs that others are built on.
pub open spec fn is_base_url(base: Seq<char>) -> bool {
    base == "zed:///"@ || base == "file:///"@
}

/// What a URL says that was built from parts which it keeps: the same parts.
pub open spec fn reads_back(
    url: Result<UrlView, Seq<char>>,
    text: Seq<char>,
    base: Seq<char>,
    path: Seq<char>,
    query: Seq<(Seq<char>, Seq<char>)>,
    fragment: Option<Seq<char>>,
) -> bool {
    &&& url matches Ok(url)
    &&& url.text == text
    &&& url.scheme == base.take(base.len() - 4)
    &&& url.query == query
    &&& percent_decoded(url.path) == Some(path)
    &&& is_verbatim_path(path) ==> url.path == path
    &&& match fragment {
        None => url.fragment is None,
        Some(fragment) => is_verbatim_fragment(fragment) ==> url.fragment == Some(fragment),
    }
}

/// Whether position `at` of a path on Windows begins a component `.` or `..`.
pub open spec fn drive_dots_at(path: Seq<char>, at: int) -> bool {
    &&& 0 <= at < path.len()
    &&& path[at] == '.'
    &&& {
        ||| at + 1 == path.len()
        ||| is_separator(path[at + 1])
        ||| path[at + 1] == '.' && (at + 2 == path.len() || is_separator(path[at + 2]))
    }
}

/// Whether a file's URL keeps a path on Windows apart from escapes and the way its separators are
/// written: it begins with a drive, has no empty, `.` or `..` component, and holds no `%`, tab or
/// line break.
pub open spec fn is_drive_path(path: Seq<char>) -> bool {
    &&& path.len() >= 3
    &&& is_letter(path[0])
    &&& path[1] == ':'
    &&& is_separator(path[2])
    &&& forall|i: int|
        0 <= i < path.len() ==> (#[trigger] path[i]) != '%' && path[i] != '\t' && path[i] != '\n'
            && path[i] != '\r'
    &&& forall|i: int|
        0 <= i < path.len() && is_separator(#[trigger] path[i]) ==> !drive_dots_at(path, i + 1)
            && !(i + 1 < path.len() && is_separator(path[i + 1]))
}

/// `path` with slashes for backslashes.
pub open spec fn slashed(path: Seq<char>) -> Seq<char> {
    path.map_values(
        |c: char|
            if c == '\\' {
                '/'
            } else {
                c
            },
    )
}

/// What a file's URL says that was built from a path on Windows which it keeps: the same parts, the
/// path behind a slash and with slashes.
pub open spec fn reads_drive_back(
    url: Result<UrlView, Seq<char>>,
    text: Seq<char>,
    base: Seq<char>,
    path: Seq<char>,
    query: Seq<(Seq<char>, Seq<char>)>,
    fragment: Option<Seq<char>>,
) -> bool {
    &&& url matches Ok(url)
    &&& url.text == text
    &&& url.scheme == base.take(base.len() - 4)
    &&& url.query == query
    &&& url.path.len() > 1
    &&& url.path[0] == '/'
    &&& url.path[1] == path[0]
    &&& percent_decoded(url.path.skip(1)) == Some(slashed(path))
    &&& match fragment {
        None => url.fragment is None,
        Some(fragment) => is_verbatim_fragment(fragment) ==> url.fragment == Some(fragment),
    }
}

/// The URL at `path` under `base`, with a fragment but no query, as the `url` crate writes it.
pub uninterp spec fn url_at(
    base: Seq<char>,
    path: Seq<char>,
    fragment: Option<Seq<char>>,
) -> Seq<char>;

/// Calls [`url::Url::parse`] on `base`, then [`url::Url::set_path`] and [`url::Url::set_fragment`].
/// The outcome depends on the arguments alone; how other than plain characters are escaped is left
/// to the crate. Where the path is one that a URL keeps, the text begins with `base`, ends with a
/// slash exactly where the path does if there is no fragment, and is read back as its parts. That
/// goes for a file's path on Windows, too, whose separators are written as slashes.
#[verifier::external_body]
pub(crate) fn write_url(base: &str, path: &str, fragment: Option<&str>) -> (text: String)
    requires
        is_base_url(base@),
        path@.len() <= MAX_URL_CHARS,
    ensures
        text@ == url_at(base@, path@, crate::text::opt_view(fragment)),
        is_kept_path(path@) ==> {
            &&& base@.is_prefix_of(text@)
            &&& fragment is None ==> (text@.last() == '/') == (path@.last() == '/')
            &&& reads_back(
                url_parts(text@),
                text@,
                base@,
                path@,
                Seq::empty(),
                crate::text::opt_view(fragment),
            )
        },
        base@ == "file:///"@ && is_drive_path(path@) ==> {
            &&& base@.is_prefix_of(text@)
            &&& fragment is None ==> (text@.last() == '/') == is_separator(path@.last())
            &&& reads_drive_back(
                url_parts(text@),
                text@,
                base@,
                path@,
                Seq::empty(),
                crate::text::opt_view(fragment),
            )
        },
{
    let mut url = url::Url::parse(base).unwrap();
    url.set_path(path);
    url.set_fragment(fragment);
    url.into()
}

/// The URL at `path` under `base`, with a query, as the `url` crate writes it.
pub uninterp spec fn url_with_query(
    base: Seq<char>,
    path: Seq<char>,
    query: Seq<(Seq<char>, Seq<char>)>,
    fragment: Option<Seq<char>>,
) -> Seq<char>;

/// Calls [`url::Url::parse`] on `base`, then [`url::Url::set_path`], `extend_pairs` on
/// [`url::Url::query_pairs_mut`] with the names and values, and [`url::Url::set_fragment`]. The
/// outcome depends on the arguments alone; how characters are escaped is left to the crate. Where
/// the path is one that a URL keeps, the text begins with `base` and is read back as its parts: a
/// query is read as it was written, whatever it holds. That goes for a file's path on Windows, too,
/// whose separators are written as slashes.
#[verifier::external_body]
pub(crate) fn write_url_with_query(
    base: &str,
    path: &str,
    query: &Vec<(String, String)>,
    fragment: Option<&str>,
) -> (text: String)
    requires
        is_base_url(base@),
        0 < query@.len() < 0x1000,
        path@.len() + (if fragment is Some {
            pairs_len(pair_views(query@))
        } else {
            0
        }) <= MAX_URL_CHARS,
    ensures
        text@ == url_with_query(
            base@,
            path@,
            pair_views(query@),
            crate::text::opt_view(fragment),
        ),
        is_kept_path(path@) ==> {
            &&& base@.is_prefix_of(text@)
            &&& reads_back(
                url_parts(text@),
                text@,
                base@,
                path@,
                pair_views(query@),
                crate::text::opt_view(fragment),
            )
        },
        base@ == "file:///"@ && is_drive_path(path@) ==> {
            &&& base@.is_prefix_of(text@)
            &&& reads_drive_back(
                url_parts(text@),
                text@,
                base@,
                path@,
                pair_views(query@),
                crate::text::opt_view(fragment),
            )
        },
{
    let mut url = url::Url::parse(base).unwrap();
    url.set_path(path);
    url.query_pairs_mut().extend_pairs(query);
    url.set_fragment(fragment);
    url.into()
}

} // verus!
