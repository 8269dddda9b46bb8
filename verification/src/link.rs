//! Parsed URLs: the parts that planning, cookies and redirects read.

use crate::error::UrlFault;
use crate::percent;
use crate::text;
use vstd::prelude::*;

verus! {

/// A parsed URL.
#[derive(Debug)]
pub struct Link {
    /// The whole URL, normalized.
    pub href: String,
    pub scheme: String,
    pub host: Option<String>,
    pub path: String,
}

impl View for Link {
    type V = (Seq<char>, Seq<char>, Option<Seq<char>>, Seq<char>);

    open spec fn view(&self) -> (Seq<char>, Seq<char>, Option<Seq<char>>, Seq<char>) {
        (
            self.href@,
            self.scheme@,
            match self.host {
                Some(host) => Some(host@),
                None => None,
            },
            self.path@,
        )
    }
}

/// What a URL parsed, or failed to, with: its parts, or the failure's text.
pub open spec fn link_result(r: Result<Link, UrlFault>) -> Result<
    (Seq<char>, Seq<char>, Option<Seq<char>>, Seq<char>),
    Seq<char>,
> {
    match r {
        Ok(link) => Ok(link@),
        Err(fault) => Err(fault.message@),
    }
}

/// What `url::Url::parse` makes of a text: the URL, its scheme, host and
/// path, or what its error reads.
pub uninterp spec fn parsed_url(text: Seq<char>) -> Result<
    (Seq<char>, Seq<char>, Option<Seq<char>>, Seq<char>),
    Seq<char>,
>;

/// What `url::Url::join` makes of a reference against the URL that a base
/// text parses to: the URL, its scheme, host and path, or what the error of
/// either step reads.
pub uninterp spec fn joined_url(base: Seq<char>, reference: Seq<char>) -> Result<
    (Seq<char>, Seq<char>, Option<Seq<char>>, Seq<char>),
    Seq<char>,
>;

/// A path that a URL neither resolves nor re-encodes: of inert characters
/// and `@`, with no segment that stands for a dot segment, escaped or not.
pub open spec fn is_settled_path(path: Seq<char>) -> bool {
    &&& forall|i: int|
        0 <= i < path.len() ==> percent::is_encoded_char(#[trigger] path[i]) || path[i] == '@'
    &&& forall|i: int|
        0 <= i < text::split(path, '/').len() ==> !stands_for_dots(
            #[trigger] text::split(path, '/')[i],
        )
}

/// A segment that reads as a dot segment once its escapes are read.
pub open spec fn stands_for_dots(segment: Seq<char>) -> bool {
    match percent::decoded(segment) {
        Some(s) => percent::is_dot_segment(s),
        None => false,
    }
}

/// A URL on archive.org that parses to itself.
pub open spec fn is_settled_url(href: Seq<char>) -> bool {
    exists|path: Seq<char>|
        #![trigger is_settled_path(path)]
        is_settled_path(path) && href == "https://archive.org/"@ + path
}

/// A reference to something below a directory.
pub open spec fn is_settled_reference(reference: Seq<char>) -> bool {
    is_settled_path(reference) && !reference.contains('@') && reference.len() > 0
        && reference.first() != '/'
}

/// A URL or path up to and with its last separator.
pub open spec fn directory(path: Seq<char>) -> Seq<char>
    decreases path.len(),
{
    if path.len() == 0 || path.last() == '/' {
        path
    } else {
        directory(path.drop_last())
    }
}

/// Parsing a URL (`url::Url::parse`): the result is the one named, and on a
/// settled URL it is that URL, on host `archive.org` with scheme `https` and
/// the rest, from the separator behind the host on, as its path.
#[verifier::external_body]
fn parse_url(href: &str) -> (r: Result<Link, UrlFault>)
    ensures
        link_result(r) == parsed_url(href@),
        forall|path: Seq<char>|
            #![trigger is_settled_path(path)]
            is_settled_path(path) && href@ == "https://archive.org/"@ + path ==> r is Ok
                && r->Ok_0@ == (href@, "https"@, Some("archive.org"@), "/"@ + path),
{
    match url::Url::parse(href) {
        Ok(url) => Ok(Link {
            href: url.as_str().to_string(),
            scheme: url.scheme().to_string(),
            host: url.host_str().map(|host| host.to_string()),
            path: url.path().to_string(),
        }),
        Err(e) => Err(UrlFault { message: e.to_string() }),
    }
}

/// Resolving a reference against a base URL (`url::Url::join`): the result
/// is the one named, and a settled reference against a settled URL on
/// archive.org takes the place of what follows the base's last separator.
#[verifier::external_body]
fn join_url(base: &str, reference: &str) -> (r: Result<Link, UrlFault>)
    ensures
        link_result(r) == joined_url(base@, reference@),
        is_settled_url(base@) && is_settled_reference(reference@) ==> r is Ok && r->Ok_0.href@
            == directory(base@) + reference@,
{
    match url::Url::parse(base).and_then(|url| url.join(reference)) {
        Ok(url) => Ok(Link {
            href: url.as_str().to_string(),
            scheme: url.scheme().to_string(),
            host: url.host_str().map(|host| host.to_string()),
            path: url.path().to_string(),
        }),
        Err(e) => Err(UrlFault { message: e.to_string() }),
    }
}

/// The path of an encoded file name is a settled reference.
pub proof fn encoded_path_is_settled(name: Seq<char>)
    requires
        percent::encoded_path(name).len() > 0,
    ensures
        is_settled_reference(percent::encoded_path(name)),
{
    let path = percent::encoded_path(name);
    percent::encoded_path_stays_below(name);
    percent::lemma_path_segments_decode(name);
    assert forall|i: int| 0 <= i < path.len() implies path[i] != '@' by {
        assert(percent::is_encoded_char(path[i]));
    }
    assert forall|i: int| 0 <= i < text::split(path, '/').len() implies !stands_for_dots(
        #[trigger] text::split(path, '/')[i],
    ) by {
        let segment = choose|s: Seq<char>|
            !percent::is_dot_segment(s) && text::split(path, '/')[i] == #[trigger] percent::encoded(
                s,
            );
        percent::decoding_inverts_encoding(segment);
    }
}

impl Link {
    /// Parses a URL.
    pub fn parse(href: &str) -> (r: Result<Link, UrlFault>)
        ensures
            link_result(r) == parsed_url(href@),
            forall|path: Seq<char>|
                #![trigger is_settled_path(path)]
                is_settled_path(path) && href@ == "https://archive.org/"@ + path ==> r is Ok
                    && r->Ok_0@ == (href@, "https"@, Some("archive.org"@), "/"@ + path),
    {
        parse_url(href)
    }

    /// Resolves a reference against this URL.
    pub fn join(&self, reference: &str) -> (r: Result<Link, UrlFault>)
        ensures
            link_result(r) == joined_url(self.href@, reference@),
            is_settled_url(self.href@) && is_settled_reference(reference@) ==> r is Ok
                && r->Ok_0.href@ == directory(self.href@) + reference@,
    {
        join_url(&self.href, reference)
    }

    /// A copy of the URL.
    pub fn duplicate(&self) -> (r: Link)
        ensures
            r@ == self@,
    {
        Link {
            href: self.href.clone(),
            scheme: self.scheme.clone(),
            host: match &self.host {
                Some(host) => Some(host.clone()),
                None => None,
            },
            path: self.path.clone(),
        }
    }
}

/// The directory of a path is the path up to its last separator; a bare name
/// has an empty one.
pub proof fn directories_end_with_their_separator(dir: Seq<char>, name: Seq<char>)
    requires
        !name.contains('/'),
    ensures
        directory(dir.push('/') + name) == dir.push('/'),
        directory(name).len() == 0,
    decreases name.len(),
{
    if name.len() == 0 {
        assert(dir.push('/') + name =~= dir.push('/'));
    } else {
        assert(name.contains(name.last()));
        assert((dir.push('/') + name).drop_last() =~= dir.push('/') + name.drop_last());
        assert forall|i: int| 0 <= i < name.drop_last().len() implies name.drop_last()[i] != '/' by {
            assert(name.contains(name[i]));
        }
        directories_end_with_their_separator(dir, name.drop_last());
    }
}

} // verus!
