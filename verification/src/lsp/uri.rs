//! Between file paths and the URIs that language servers use for them.

use vstd::prelude::*;

use crate::paths;
use crate::text;

verus! {

/// The scheme of the URL that a text parses as, if it does.
pub uninterp spec fn url_scheme_name(uri: Seq<char>) -> Option<Seq<char>>;

/// The path that the URL, which a text parses as, stands for, if there is one:
/// the text that it is shown as, and the text that it is, where it is one.
pub uninterp spec fn url_path_name(uri: Seq<char>) -> Option<(Seq<char>, Option<Seq<char>>)>;

/// The URL of a file path.
pub uninterp spec fn file_url_name(path: Seq<char>) -> Option<Seq<char>>;

/// `url::Url::scheme` of what `url::Url::parse` makes of the text: the scheme
/// depends on the text alone. There is none where the text is no URL.
#[verifier::external_body]
fn url_scheme(uri: &str) -> (scheme: Option<String>)
    ensures
        text::opt_text(scheme) == url_scheme_name(uri@),
{
    match url::Url::parse(uri) {
        Ok(parsed) => Some(parsed.scheme().to_string()),
        Err(_) => None,
    }
}

/// The views of a path that is shown as one text and may be another.
pub open spec fn path_texts(path: Option<(String, Option<String>)>) -> Option<
    (Seq<char>, Option<Seq<char>>),
> {
    match path {
        Some((shown, whole)) => Some((shown@, text::opt_text(whole))),
        None => None,
    }
}

/// `url::Url::to_file_path` of what `url::Url::parse` makes of the text: the
/// path depends on the text alone. It comes as the text that it is shown as,
/// and, where its bytes are a text, as that text. There is none where the text
/// is no URL, or one without a path on this machine.
#[verifier::external_body]
fn url_file_path(uri: &str) -> (path: Option<(String, Option<String>)>)
    ensures
        path_texts(path) == url_path_name(uri@),
{
    match url::Url::parse(uri) {
        Ok(parsed) => match parsed.to_file_path() {
            Ok(path) => Some((path.display().to_string(), path.to_str().map(str::to_string))),
            Err(()) => None,
        },
        Err(_) => None,
    }
}

/// `url::Url::from_file_path`, as text: whether there is a URL, and which,
/// depends on the path alone.
#[verifier::external_body]
fn file_url(path: &str) -> (url: Option<String>)
    ensures
        text::opt_text(url) == file_url_name(path@),
{
    match url::Url::from_file_path(path) {
        Ok(url) => Some(url.to_string()),
        Err(()) => None,
    }
}

/// The outcome of a call that yields a path or a message.
pub open spec fn outcome(r: Result<String, String>) -> Result<Seq<char>, Seq<char>> {
    match r {
        Ok(s) => Ok(s@),
        Err(message) => Err(message@),
    }
}

/// The path that a URI names, given its scheme and path as a URL: a file URL
/// names its path, and any other text has to be an absolute path.
pub open spec fn path_of_parsed_uri(
    uri: Seq<char>,
    scheme: Option<Seq<char>>,
    path: Option<Seq<char>>,
) -> Result<Seq<char>, Seq<char>> {
    if scheme == Some("file"@) {
        match path {
            Some(p) => Ok(p),
            None => Err("failed to convert file uri to path: "@ + uri),
        }
    } else if paths::absolute(uri) {
        Ok(uri)
    } else {
        Err("unsupported non-file workspace edit uri: "@ + uri)
    }
}

/// The text that a path is shown as.
pub open spec fn shown_text(path: Option<(Seq<char>, Option<Seq<char>>)>) -> Option<Seq<char>> {
    match path {
        Some((shown, _)) => Some(shown),
        None => None,
    }
}

/// The text that a path is, where it is one.
pub open spec fn whole_text(path: Option<(Seq<char>, Option<Seq<char>>)>) -> Option<Seq<char>> {
    match path {
        Some((_, whole)) => whole,
        None => None,
    }
}

/// The path that a URI names. It has to be a text.
pub open spec fn uri_path(uri: Seq<char>) -> Result<Seq<char>, Seq<char>> {
    path_of_parsed_uri(uri, url_scheme_name(uri), whole_text(url_path_name(uri)))
}

/// The path that a URI names, as it is shown.
pub open spec fn shown_uri_path(uri: Seq<char>) -> Result<Seq<char>, Seq<char>> {
    path_of_parsed_uri(uri, url_scheme_name(uri), shown_text(url_path_name(uri)))
}

/// The path shown in place of a URI: that of a file URL, if it has one.
pub open spec fn shown_path(
    scheme: Option<Seq<char>>,
    path: Option<(Seq<char>, Option<Seq<char>>)>,
) -> Option<Seq<char>> {
    if scheme == Some("file"@) {
        shown_text(path)
    } else {
        None
    }
}

/// The URL of a path, given what the conversion yields.
pub open spec fn url_outcome(path: Seq<char>, url: Option<Seq<char>>) -> Result<
    Seq<char>,
    Seq<char>,
> {
    match url {
        Some(u) => Ok(u),
        None => Err("failed to convert path to file uri: "@ + path),
    }
}

/// Whether an optional string holds the given text.
pub fn is_text(value: &Option<String>, wanted: &str) -> (r: bool)
    ensures
        r == (text::opt_text(*value) == Some(wanted@)),
{
    match value {
        Some(s) => text::same_text(s.as_str(), wanted),
        None => false,
    }
}

/// The path that a URI names, given its scheme and path as a URL.
pub fn resolve_parsed_uri(uri: &str, scheme: &Option<String>, path: Option<String>) -> (r: Result<
    String,
    String,
>)
    ensures
        outcome(r) == path_of_parsed_uri(uri@, text::opt_text(*scheme), text::opt_text(path)),
{
    if is_text(scheme, "file") {
        match path {
            Some(p) => Ok(p),
            None => {
                let mut message = "failed to convert file uri to path: ".to_string();
                message.append(uri);
                Err(message)
            },
        }
    } else if paths::is_absolute(uri) {
        Ok(uri.to_string())
    } else {
        let mut message = "unsupported non-file workspace edit uri: ".to_string();
        message.append(uri);
        Err(message)
    }
}

/// The path that a URI names, which has to be a text.
pub fn lsp_uri_to_path(uri: &str) -> (r: Result<String, String>)
    ensures
        outcome(r) == uri_path(uri@),
{
    let scheme = url_scheme(uri);
    let path = match url_file_path(uri) {
        Some((_, whole)) => whole,
        None => None,
    };
    resolve_parsed_uri(uri, &scheme, path)
}

/// The path that a URI names, as it is shown.
pub fn lsp_uri_to_shown_path(uri: &str) -> (r: Result<String, String>)
    ensures
        outcome(r) == shown_uri_path(uri@),
{
    let scheme = url_scheme(uri);
    let path = match url_file_path(uri) {
        Some((shown, _)) => Some(shown),
        None => None,
    };
    resolve_parsed_uri(uri, &scheme, path)
}

/// The path to show in place of a file URL.
pub fn uri_display_path(uri: &str) -> (r: Option<String>)
    ensures
        text::opt_text(r) == shown_path(url_scheme_name(uri@), url_path_name(uri@)),
{
    let scheme = url_scheme(uri);
    if !is_text(&scheme, "file") {
        return None;
    }
    match url_file_path(uri) {
        Some((shown, _)) => Some(shown),
        None => None,
    }
}

/// The URL of a path.
pub fn path_to_file_url(path: &str) -> (r: Result<String, String>)
    ensures
        outcome(r) == url_outcome(path@, file_url_name(path@)),
{
    match file_url(path) {
        Some(url) => Ok(url),
        None => {
            let mut message = "failed to convert path to file uri: ".to_string();
            message.append(path);
            Err(message)
        },
    }
}

/// A location of the file system is its path, an absolute path is taken as it
/// is, and anything else is refused by name.
pub proof fn locations_are_paths(
    uri: Seq<char>,
    scheme: Option<Seq<char>>,
    path: Option<Seq<char>>,
    place: Seq<char>,
)
    ensures
        path_of_parsed_uri(uri, Some("file"@), Some(place)) == Ok::<_, Seq<char>>(place),
        path_of_parsed_uri(uri, Some("file"@), None) == Err::<Seq<char>, _>(
            "failed to convert file uri to path: "@ + uri,
        ),
        scheme != Some("file"@) && paths::absolute(uri) ==> path_of_parsed_uri(uri, scheme, path)
            == Ok::<_, Seq<char>>(uri),
        scheme != Some("file"@) && !paths::absolute(uri) ==> path_of_parsed_uri(uri, scheme, path)
            == Err::<Seq<char>, _>("unsupported non-file workspace edit uri: "@ + uri),
        url_outcome(place, Some(uri)) == Ok::<_, Seq<char>>(uri),
        url_outcome(place, None) == Err::<Seq<char>, _>(
            "failed to convert path to file uri: "@ + place,
        ),
        shown_path(Some("file"@), Some((place, path))) == Some(place),
        shown_path(Some("file"@), None) is None,
        scheme != Some("file"@) ==> shown_path(scheme, Some((place, path))) is None,
{
}

} // verus!
