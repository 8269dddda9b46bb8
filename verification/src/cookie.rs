//! The `Cookie` header of each request, from a raw string or the entries of
//! a Netscape cookies.txt file.

use crate::clock;
use crate::error::IaGetError;
use crate::header;
use crate::header::{header_text, header_value};
use crate::link::Link;
use crate::percent;
use crate::styled;
use crate::styled::{Line, Style};
use crate::text;
use crate::text::Trim;
use vstd::prelude::*;
use vstd::utf8;

verus! {

/// The largest cookie file that is read, in bytes.
pub const MAX_COOKIE_FILE_BYTES: u64 = 10_485_760;

/// An entry of a Netscape cookies.txt file.
#[derive(Debug)]
pub struct NetscapeCookie {
    pub domain: String,
    pub include_subdomains: bool,
    pub path: String,
    pub secure: bool,
    /// When it expires, in Unix seconds; never where it is missing.
    pub expires: Option<u64>,
    pub name: String,
    pub value: String,
}

/// A cookie, seen from contracts.
#[verifier::ext_equal]
pub struct CookieView {
    pub domain: Seq<char>,
    pub include_subdomains: bool,
    pub path: Seq<char>,
    pub secure: bool,
    pub expires: Option<u64>,
    pub name: Seq<char>,
    pub value: Seq<char>,
}

impl View for NetscapeCookie {
    type V = CookieView;

    open spec fn view(&self) -> CookieView {
        CookieView {
            domain: self.domain@,
            include_subdomains: self.include_subdomains,
            path: self.path@,
            secure: self.secure,
            expires: self.expires,
            name: self.name@,
            value: self.value@,
        }
    }
}

/// What each cookie of a list is.
pub open spec fn cookie_views(cookies: Seq<NetscapeCookie>) -> Seq<CookieView> {
    cookies.map_values(|cookie: NetscapeCookie| cookie@)
}

// ---------------------------------------------------------------------------
// Reading cookies.txt
// ---------------------------------------------------------------------------

/// The time that an expiry field stands for: none where it is zero, or no
/// number.
pub open spec fn expiry(field: Seq<char>) -> Option<u64> {
    match text::unsigned(field) {
        Some(n) => if 0 < n <= u64::MAX {
            Some(n as u64)
        } else {
            None
        },
        None => None,
    }
}

/// A line without white space around it and without the marker of cookies
/// that scripts cannot read.
pub open spec fn cookie_line(line: Seq<char>) -> Seq<char> {
    let trimmed = text::trim(line, Trim::Space);
    if "#HttpOnly_"@.is_prefix_of(trimmed) {
        trimmed.skip("#HttpOnly_"@.len() as int)
    } else {
        trimmed
    }
}

/// The cookie that a line defines: none where it is empty, a comment, or has
/// fewer than seven fields.
pub open spec fn cookie_of(line: Seq<char>) -> Option<CookieView> {
    let entry = cookie_line(line);
    let fields = text::split(entry, '\t');
    if entry.len() == 0 || entry.first() == '#' || fields.len() < 7 {
        None
    } else {
        Some(
            CookieView {
                domain: text::lowered(text::trim_front(fields[0], Trim::Dot)),
                include_subdomains: text::lowered(fields[1]) == text::lowered("TRUE"@),
                path: fields[2],
                secure: text::lowered(fields[3]) == text::lowered("TRUE"@),
                expires: expiry(fields[4]),
                name: fields[5],
                value: fields[6],
            },
        )
    }
}

/// The cookies that lines define, in order.
pub open spec fn cookies_of(lines: Seq<Seq<char>>) -> Seq<CookieView>
    decreases lines.len(),
{
    if lines.len() == 0 {
        Seq::empty()
    } else {
        match cookie_of(lines.last()) {
            Some(cookie) => cookies_of(lines.drop_last()).push(cookie),
            None => cookies_of(lines.drop_last()),
        }
    }
}

/// Whether a row agrees with a text but for the case of ASCII letters.
fn is_text_ignoring_case(row: &Vec<char>, expected: &str) -> (r: bool)
    ensures
        r == (text::lowered(row@) == text::lowered(expected@)),
{
    text::same_chars(&text::to_lower_all(row), &text::to_lower_all(&text::chars_of(expected)))
}

/// The cookie that a line defines, if any.
fn parse_netscape_cookie(line: &Vec<char>) -> (r: Option<NetscapeCookie>)
    ensures
        match r {
            Some(cookie) => cookie_of(line@) == Some(cookie@),
            None => cookie_of(line@) is None,
        },
{
    let trimmed = text::trim_both(line, Trim::Space);
    let entry = if text::starts_with(&trimmed, "#HttpOnly_") {
        let n: usize = text::chars_of("#HttpOnly_").len();
        assert(trimmed@.subrange(n as int, trimmed@.len() as int) =~= trimmed@.skip(n as int));
        text::chars_between(&trimmed, n, trimmed.len())
    } else {
        trimmed
    };
    if entry.len() == 0 || entry[0] == '#' {
        return None;
    }
    let fields = text::split_chars(&entry, '\t');
    if fields.len() < 7 {
        return None;
    }
    proof {
        let rows = text::rows(fields@);
        assert(fields@[0]@ == rows[0]);
        assert(fields@[1]@ == rows[1]);
        assert(fields@[2]@ == rows[2]);
        assert(fields@[3]@ == rows[3]);
        assert(fields@[4]@ == rows[4]);
        assert(fields@[5]@ == rows[5]);
        assert(fields@[6]@ == rows[6]);
    }
    let expires = match text::parse_u64(&fields[4]) {
        Some(n) => if n == 0 {
            None
        } else {
            Some(n)
        },
        None => None,
    };
    let cookie = NetscapeCookie {
        domain: text::text_of(&text::to_lower_all(&text::trim_start(&fields[0], Trim::Dot))),
        include_subdomains: is_text_ignoring_case(&fields[1], "TRUE"),
        path: text::text_of(&fields[2]),
        secure: is_text_ignoring_case(&fields[3], "TRUE"),
        expires,
        name: text::text_of(&fields[5]),
        value: text::text_of(&fields[6]),
    };
    assert(cookie@ =~= cookie_of(line@)->0);
    Some(cookie)
}

/// The cookies of a cookies.txt file. Empty lines, comments and malformed
/// entries are skipped.
pub fn parse_netscape_cookies(content: &str) -> (r: Vec<NetscapeCookie>)
    ensures
        cookie_views(r@) == cookies_of(text::split(content@, '\n')),
{
    let lines = text::split_chars(&text::chars_of(content), '\n');
    let ghost all = text::split(content@, '\n');
    let mut cookies: Vec<NetscapeCookie> = Vec::new();
    let mut i: usize = 0;
    assert(cookie_views(cookies@) =~= cookies_of(all.take(0)));
    while i < lines.len()
        invariant
            i <= lines.len(),
            text::rows(lines@) == all,
            cookie_views(cookies@) == cookies_of(all.take(i as int)),
        decreases lines.len() - i,
    {
        proof {
            assert(lines@[i as int]@ == all[i as int]);
            assert(all.take(i + 1).drop_last() =~= all.take(i as int));
        }
        match parse_netscape_cookie(&lines[i]) {
            Some(cookie) => {
                let ghost before = cookies@;
                cookies.push(cookie);
                assert(cookie_views(cookies@) =~= cookie_views(before).push(cookie@));
            },
            None => {},
        }
        i += 1;
    }
    assert(all.take(all.len() as int) =~= all);
    cookies
}

// ---------------------------------------------------------------------------
// Which cookies go where
// ---------------------------------------------------------------------------

/// archive.org, or one of its subdomains.
pub open spec fn is_archive_org(domain: Seq<char>) -> bool {
    domain == "archive.org"@ || ".archive.org"@.is_suffix_of(domain)
}

/// Whether a cookie belongs to a host: both on archive.org, and the host the
/// cookie's own or, where it says so, a subdomain of it.
pub open spec fn is_for_host(cookie: CookieView, host: Option<Seq<char>>) -> bool {
    match host {
        Some(host) => is_archive_org(cookie.domain) && (text::lowered(host) == cookie.domain || (
        cookie.include_subdomains && ("."@ + cookie.domain).is_suffix_of(text::lowered(host)))),
        None => false,
    }
}

/// Whether a cookie belongs to a path: the cookie's own, or below it.
pub open spec fn is_for_path(cookie: CookieView, path: Seq<char>) -> bool {
    let scope = if cookie.path.len() == 0 {
        "/"@
    } else {
        cookie.path
    };
    path == scope || (scope.is_prefix_of(path) && (scope.last() == '/' || (path.len() > scope.len()
        && path[scope.len() as int] == '/')))
}

/// Whether a cookie has not expired.
pub open spec fn is_fresh(cookie: CookieView, now: u64) -> bool {
    cookie.expires matches Some(expires) ==> expires > now
}

/// Whether a cookie goes with a request: neither expired nor kept to another
/// scheme, host or path.
pub open spec fn applies(
    cookie: CookieView,
    url: (Seq<char>, Seq<char>, Option<Seq<char>>, Seq<char>),
    now: u64,
) -> bool {
    is_fresh(cookie, now) && (cookie.secure ==> url.1 == "https"@) && is_for_host(cookie, url.2)
        && is_for_path(cookie, url.3)
}

/// No cookie leaves archive.org: it goes with a request only where the host
/// is archive.org or a subdomain of it, whatever domain the file says.
pub proof fn cookies_stay_on_archive_org(
    cookie: CookieView,
    url: (Seq<char>, Seq<char>, Option<Seq<char>>, Seq<char>),
    now: u64,
)
    requires
        applies(cookie, url, now),
    ensures
        url.2 matches Some(host) && is_archive_org(text::lowered(host)),
{
    let host = text::lowered(url.2->0);
    reveal_strlit("archive.org");
    reveal_strlit(".archive.org");
    reveal_strlit(".");
    if host != cookie.domain {
        let tail = "."@ + cookie.domain;
        assert(tail =~= host.subrange(host.len() - tail.len(), host.len() as int));
        if cookie.domain == "archive.org"@ {
            assert(tail =~= ".archive.org"@);
        } else {
            let end = ".archive.org"@;
            assert(end =~= cookie.domain.subrange(
                cookie.domain.len() - end.len(),
                cookie.domain.len() as int,
            ));
            assert(host.subrange(host.len() - end.len(), host.len() as int) =~= tail.subrange(
                tail.len() - end.len(),
                tail.len() as int,
            ));
            assert(tail.subrange(tail.len() - end.len(), tail.len() as int)
                =~= cookie.domain.subrange(
                cookie.domain.len() - end.len(),
                cookie.domain.len() as int,
            ));
        }
    }
}

/// A cookie that goes with a request has not expired, and a secure one goes
/// over https alone.
pub proof fn stale_and_insecure_cookies_stay_home(
    cookie: CookieView,
    url: (Seq<char>, Seq<char>, Option<Seq<char>>, Seq<char>),
    now: u64,
)
    requires
        applies(cookie, url, now),
    ensures
        cookie.expires matches Some(expires) ==> expires > now,
        cookie.secure ==> url.1 == "https"@,
{
}

fn is_archive_org_domain(domain: &Vec<char>) -> (r: bool)
    ensures
        r == is_archive_org(domain@),
{
    text::is_text(domain, "archive.org") || text::ends_with(domain, ".archive.org")
}

fn cookie_domain_matches(cookie: &NetscapeCookie, url: &Link) -> (r: bool)
    ensures
        r == is_for_host(cookie@, url@.2),
{
    let host = match &url.host {
        Some(host) => host,
        None => {
            return false;
        },
    };
    let domain = text::chars_of(&cookie.domain);
    if !is_archive_org_domain(&domain) {
        return false;
    }
    let lower = text::to_lower_all(&text::chars_of(host));
    text::same_chars(&lower, &domain) || (cookie.include_subdomains && text::ends_with(
        &lower,
        &text::concat(".", &cookie.domain),
    ))
}

fn cookie_path_matches(cookie: &NetscapeCookie, url: &Link) -> (r: bool)
    ensures
        r == is_for_path(cookie@, url@.3),
{
    let path = text::chars_of(&url.path);
    let scope_text = if text::chars_of(&cookie.path).len() == 0 {
        "/".to_owned()
    } else {
        cookie.path.clone()
    };
    let scope = text::chars_of(&scope_text);
    proof {
        reveal_strlit("/");
    }
    if text::same_chars(&path, &scope) {
        return true;
    }
    if !text::starts_with(&path, &scope_text) {
        return false;
    }
    scope[scope.len() - 1] == '/' || (path.len() > scope.len() && path[scope.len()] == '/')
}

/// Whether a cookie goes with a request at a time.
pub fn cookie_applies_to_url(cookie: &NetscapeCookie, url: &Link, now: u64) -> (r: bool)
    ensures
        r == applies(cookie@, url@, now),
{
    if let Some(expires) = cookie.expires {
        if expires <= now {
            return false;
        }
    }
    if cookie.secure && !text::same(&url.scheme, "https") {
        return false;
    }
    cookie_domain_matches(cookie, url) && cookie_path_matches(cookie, url)
}

// ---------------------------------------------------------------------------
// The header
// ---------------------------------------------------------------------------

/// A cookie as it stands in a header.
pub open spec fn pair_of(cookie: CookieView) -> Seq<char> {
    cookie.name + "="@ + cookie.value
}

/// How specific a cookie is: the length of its path in bytes.
pub open spec fn specificity(cookie: CookieView) -> nat {
    utf8::encode_utf8(cookie.path).len()
}

/// The cookies that go with a request, in order, each with how specific it
/// is.
pub open spec fn applicable(
    cookies: Seq<CookieView>,
    url: (Seq<char>, Seq<char>, Option<Seq<char>>, Seq<char>),
    now: u64,
) -> Seq<(nat, Seq<char>)>
    decreases cookies.len(),
{
    if cookies.len() == 0 {
        Seq::empty()
    } else {
        let before = applicable(cookies.drop_last(), url, now);
        if applies(cookies.last(), url, now) {
            before.push((specificity(cookies.last()), pair_of(cookies.last())))
        } else {
            before
        }
    }
}

/// Where an entry goes in a list that is ordered from most to least
/// specific: behind all that are as specific.
pub open spec fn place(list: Seq<(nat, Seq<char>)>, weight: nat) -> int
    decreases list.len(),
{
    if list.len() == 0 || list.last().0 >= weight {
        list.len() as int
    } else {
        place(list.drop_last(), weight)
    }
}

/// A list from most to least specific; what is as specific stays in order.
pub open spec fn most_specific_first(list: Seq<(nat, Seq<char>)>) -> Seq<(nat, Seq<char>)>
    decreases list.len(),
{
    if list.len() == 0 {
        Seq::empty()
    } else {
        let before = most_specific_first(list.drop_last());
        before.insert(place(before, list.last().0), list.last())
    }
}

/// The header for a request.
pub open spec fn header_for(
    cookies: Seq<CookieView>,
    url: (Seq<char>, Seq<char>, Option<Seq<char>>, Seq<char>),
    now: u64,
) -> Seq<char> {
    text::join(
        most_specific_first(applicable(cookies, url, now)).map_values(
            |entry: (nat, Seq<char>)| entry.1,
        ),
        "; "@,
    )
}

proof fn lemma_place(list: Seq<(nat, Seq<char>)>, weight: nat)
    ensures
        0 <= place(list, weight) <= list.len(),
        forall|i: int| place(list, weight) <= i < list.len() ==> (#[trigger] list[i]).0 < weight,
        place(list, weight) > 0 ==> list[place(list, weight) - 1].0 >= weight,
    decreases list.len(),
{
    if list.len() > 0 && list.last().0 < weight {
        let head = list.drop_last();
        lemma_place(head, weight);
        assert forall|i: int| place(list, weight) <= i < list.len() implies (
        #[trigger] list[i]).0 < weight by {
            if i < head.len() {
                assert(head[i] == list[i]);
            }
        }
    }
}

/// The most specific cookies lead: no entry is followed by a more specific
/// one, and the entries are those that were given.
pub proof fn header_leads_with_the_most_specific(list: Seq<(nat, Seq<char>)>)
    ensures
        forall|i: int, j: int|
            0 <= i < j < most_specific_first(list).len() ==> (#[trigger] most_specific_first(
                list,
            )[i]).0 >= (#[trigger] most_specific_first(list)[j]).0,
        most_specific_first(list).to_multiset() == list.to_multiset(),
    decreases list.len(),
{
    broadcast use vstd::seq_lib::group_to_multiset_ensures;

    if list.len() > 0 {
        let head = list.drop_last();
        header_leads_with_the_most_specific(head);
        let before = most_specific_first(head);
        let at = place(before, list.last().0);
        lemma_place(before, list.last().0);
        let after = most_specific_first(list);
        assert forall|i: int, j: int| 0 <= i < j < after.len() implies (#[trigger] after[i]).0 >= (
        #[trigger] after[j]).0 by {
            let a = if i < at {
                i
            } else {
                i - 1
            };
            let b = if j < at {
                j
            } else {
                j - 1
            };
            if i == at {
                assert(after[j] == before[b]);
            } else if j == at {
                assert(after[i] == before[i]);
                if i < at - 1 {
                    assert(before[i].0 >= before[at - 1].0);
                }
            } else {
                assert(after[i] == before[a]);
                assert(after[j] == before[b]);
            }
        }
        vstd::seq_lib::to_multiset_insert(before, at, list.last());
        assert(list =~= head.push(list.last()));
        vstd::seq_lib::to_multiset_build(head, list.last());
    } else {
        assert(most_specific_first(list) =~= list);
    }
}

/// What is as specific keeps its order: of such entries, in the list that is
/// ordered they stand as they do in the one that is not.
pub proof fn ties_keep_the_order(list: Seq<(nat, Seq<char>)>, weight: nat)
    ensures
        most_specific_first(list).filter(|entry: (nat, Seq<char>)| entry.0 == weight)
            == list.filter(|entry: (nat, Seq<char>)| entry.0 == weight),
    decreases list.len(),
{
    reveal(Seq::filter);
    let keep = |entry: (nat, Seq<char>)| entry.0 == weight;
    if list.len() > 0 {
        let head = list.drop_last();
        let last = list.last();
        ties_keep_the_order(head, weight);
        let before = most_specific_first(head);
        let at = place(before, last.0);
        lemma_place(before, last.0);
        let front = before.take(at);
        let back = before.skip(at);
        assert(before =~= front + back);
        assert(before.insert(at, last) =~= front.push(last) + back);
        assert forall|i: int| 0 <= i < back.len() implies (#[trigger] back[i]).0 < last.0 by {
            assert(back[i] == before[at + i]);
        }
        Seq::filter_distributes_over_add(front, back, keep);
        Seq::filter_distributes_over_add(front.push(last), back, keep);
        assert(front.push(last).drop_last() =~= front);
        if keep(last) {
            lemma_filter_none(back, weight);
            assert(front.push(last).filter(keep) + Seq::empty() =~= front.filter(keep).push(last));
            assert(front.filter(keep) + Seq::empty() =~= front.filter(keep));
        } else {
            assert(front.push(last).filter(keep) =~= front.filter(keep));
        }
    } else {
        assert(most_specific_first(list) =~= list);
    }
}

proof fn lemma_filter_none(list: Seq<(nat, Seq<char>)>, weight: nat)
    requires
        forall|i: int| 0 <= i < list.len() ==> (#[trigger] list[i]).0 != weight,
    ensures
        list.filter(|entry: (nat, Seq<char>)| entry.0 == weight) == Seq::<(nat, Seq<char>)>::empty(),
    decreases list.len(),
{
    reveal(Seq::filter);
    if list.len() > 0 {
        let head = list.drop_last();
        assert forall|i: int| 0 <= i < head.len() implies (#[trigger] head[i]).0 != weight by {
            assert(list[i].0 != weight);
        }
        lemma_filter_none(head, weight);
        assert(list[list.len() - 1].0 != weight);
    }
}

/// A cookie on its way into a header.
struct Pair {
    weight: usize,
    text: String,
}

spec fn pair_views(pairs: Seq<Pair>) -> Seq<(nat, Seq<char>)> {
    pairs.map_values(|pair: Pair| (pair.weight as nat, pair.text@))
}

fn place_of(pairs: &Vec<Pair>, weight: usize) -> (at: usize)
    ensures
        at == place(pair_views(pairs@), weight as nat),
        at <= pairs.len(),
{
    let ghost views = pair_views(pairs@);
    let mut at: usize = pairs.len();
    assert(views.take(at as int) =~= views);
    while at > 0 && pairs[at - 1].weight < weight
        invariant
            at <= pairs.len(),
            views == pair_views(pairs@),
            place(views, weight as nat) == place(views.take(at as int), weight as nat),
        decreases at,
    {
        assert(views.take(at as int).last() == views[at - 1]);
        assert(views.take(at as int).drop_last() =~= views.take(at - 1));
        at -= 1;
    }
    proof {
        if at > 0 {
            assert(views.take(at as int).last() == views[at - 1]);
        }
    }
    at
}

/// The header for a request at a time: the cookies that go with it, most
/// specific path first, those as specific in the order of the file.
pub fn cookie_header_at(cookies: &Vec<NetscapeCookie>, url: &Link, now: u64) -> (r: String)
    ensures
        r@ == header_for(cookie_views(cookies@), url@, now),
{
    let ghost views = cookie_views(cookies@);
    let mut pairs: Vec<Pair> = Vec::new();
    let mut i: usize = 0;
    assert(pair_views(pairs@) =~= most_specific_first(applicable(views.take(0), url@, now)));
    while i < cookies.len()
        invariant
            i <= cookies.len(),
            views == cookie_views(cookies@),
            pair_views(pairs@) == most_specific_first(applicable(views.take(i as int), url@, now)),
        decreases cookies.len() - i,
    {
        let cookie = &cookies[i];
        proof {
            assert(cookie@ == views[i as int]);
            assert(views.take(i + 1).drop_last() =~= views.take(i as int));
        }
        if cookie_applies_to_url(cookie, url, now) {
            let ghost list = applicable(views.take(i as int), url@, now);
            let ghost before = pairs@;
            let weight: usize = cookie.path.as_str().as_bytes().len();
            let mut pair_text = text::concat(&cookie.name, "=");
            pair_text.append(&cookie.value);
            let at: usize = place_of(&pairs, weight);
            let ghost entry = (weight as nat, pair_text@);
            pairs.insert(at, Pair { weight, text: pair_text });
            proof {
                assert(list.push(entry).drop_last() =~= list);
                assert(pair_views(pairs@) =~= pair_views(before).insert(at as int, entry));
            }
        }
        i += 1;
    }
    assert(views.take(views.len() as int) =~= views);
    let ghost list = pair_views(pairs@).map_values(|entry: (nat, Seq<char>)| entry.1);
    let mut header = String::new();
    let mut i: usize = 0;
    assert(header@ =~= text::join(list.take(0), "; "@));
    while i < pairs.len()
        invariant
            i <= pairs.len(),
            list == pair_views(pairs@).map_values(|entry: (nat, Seq<char>)| entry.1),
            header@ == text::join(list.take(i as int), "; "@),
        decreases pairs.len() - i,
    {
        proof {
            assert(pairs@[i as int].text@ == list[i as int]);
            assert(list.take(i + 1).drop_last() =~= list.take(i as int));
        }
        if i > 0 {
            header.append("; ");
        }
        header.append(&pairs[i].text);
        assert(header@ =~= text::join(list.take(i + 1), "; "@));
        i += 1;
    }
    assert(list.take(list.len() as int) =~= list);
    header
}

// ---------------------------------------------------------------------------
// Cookies that cannot be sent
// ---------------------------------------------------------------------------

/// Whether a cookie can stand in a header.
pub open spec fn is_encodable(cookie: CookieView) -> bool {
    header::is_header_text(pair_of(cookie))
}

/// The warning for a cookie that cannot be sent.
pub open spec fn skipped_cookie(name: Seq<char>) -> Seq<(Seq<char>, Style)> {
    seq![
        ("⚠"@, Style::YellowBold),
        (" "@, Style::Plain),
        ("Skipped cookie"@, Style::Yellow),
        (" "@, Style::Plain),
        (name, Style::Dimmed),
        (": the cookie value cannot be encoded as an HTTP header"@, Style::Plain),
    ]
}

/// The cookies that can be sent, and the warnings for the others.
pub open spec fn sorted_out(cookies: Seq<CookieView>) -> (
    Seq<CookieView>,
    Seq<Seq<(Seq<char>, Style)>>,
)
    decreases cookies.len(),
{
    if cookies.len() == 0 {
        (Seq::empty(), Seq::empty())
    } else {
        let before = sorted_out(cookies.drop_last());
        if is_encodable(cookies.last()) {
            (before.0.push(cookies.last()), before.1)
        } else {
            (before.0, before.1.push(skipped_cookie(cookies.last().name)))
        }
    }
}

/// Keeps the cookies that can be sent. One that cannot is left out with a
/// warning; the others still count.
pub fn filter_encodable(cookies: Vec<NetscapeCookie>) -> (r: (Vec<NetscapeCookie>, Vec<Line>))
    ensures
        cookie_views(r.0@) == sorted_out(cookie_views(cookies@)).0,
        styled::lines(r.1@) == sorted_out(cookie_views(cookies@)).1,
{
    let ghost all = cookies@;
    let ghost views = cookie_views(all);
    let mut kept: Vec<NetscapeCookie> = Vec::new();
    let mut warnings: Vec<Line> = Vec::new();
    proof {
        assert(cookie_views(kept@) =~= sorted_out(views.take(0)).0);
        assert(styled::lines(warnings@) =~= sorted_out(views.take(0)).1);
    }
    for cookie in it: cookies
        invariant
            it.seq() == all,
            views == cookie_views(all),
            cookie_views(kept@) == sorted_out(views.take(it.index())).0,
            styled::lines(warnings@) == sorted_out(views.take(it.index())).1,
    {
        proof {
            assert(cookie@ == views[it.index()]);
            assert(views.take(it.index() + 1).drop_last() =~= views.take(it.index()));
        }
        let mut pair = text::concat(&cookie.name, "=");
        pair.append(&cookie.value);
        match header_value(&pair) {
            Ok(_) => {
                let ghost before = kept@;
                let ghost view = cookie@;
                kept.push(cookie);
                assert(cookie_views(kept@) =~= cookie_views(before).push(view));
            },
            Err(_) => {
                let ghost before = warnings@;
                let mut line = Line::new();
                line.push("⚠", Style::YellowBold);
                line.push(" ", Style::Plain);
                line.push("Skipped cookie", Style::Yellow);
                line.push(" ", Style::Plain);
                line.push(&cookie.name, Style::Dimmed);
                line.push(": the cookie value cannot be encoded as an HTTP header", Style::Plain);
                let ghost shown = line@;
                assert(shown =~= skipped_cookie(cookie.name@));
                warnings.push(line);
                assert(styled::lines(warnings@) =~= styled::lines(before).push(shown));
            },
        }
    }
    assert(views.take(views.len() as int) =~= views);
    (kept, warnings)
}

/// The cookies that were kept can be sent.
pub proof fn kept_cookies_are_encodable(cookies: Seq<CookieView>, i: int)
    requires
        0 <= i < sorted_out(cookies).0.len(),
    ensures
        is_encodable(sorted_out(cookies).0[i]),
    decreases cookies.len(),
{
    if cookies.len() > 0 && i < sorted_out(cookies.drop_last()).0.len() {
        kept_cookies_are_encodable(cookies.drop_last(), i);
    }
}

proof fn lemma_header_text_append(a: Seq<char>, b: Seq<char>)
    requires
        header::is_header_text(a),
        header::is_header_text(b),
    ensures
        header::is_header_text(a + b),
{
    percent::lemma_encode_utf8_append(a, b);
    let left = utf8::encode_utf8(a);
    let right = utf8::encode_utf8(b);
    let both = utf8::encode_utf8(a + b);
    assert forall|i: int| 0 <= i < both.len() implies header::is_header_byte(#[trigger] both[i]) by {
        if i < left.len() {
            assert(header::is_header_byte(left[i]));
        } else {
            assert(header::is_header_byte(right[i - left.len()]));
        }
    }
}

proof fn lemma_applicable_encodable(
    cookies: Seq<CookieView>,
    url: (Seq<char>, Seq<char>, Option<Seq<char>>, Seq<char>),
    now: u64,
)
    requires
        forall|i: int| 0 <= i < cookies.len() ==> is_encodable(#[trigger] cookies[i]),
    ensures
        forall|i: int|
            0 <= i < applicable(cookies, url, now).len() ==> header::is_header_text(
                (#[trigger] applicable(cookies, url, now)[i]).1,
            ),
    decreases cookies.len(),
{
    if cookies.len() > 0 {
        let head = cookies.drop_last();
        assert forall|i: int| 0 <= i < head.len() implies is_encodable(#[trigger] head[i]) by {
            assert(is_encodable(cookies[i]));
        }
        lemma_applicable_encodable(head, url, now);
        assert(is_encodable(cookies[cookies.len() - 1]));
        let before = applicable(head, url, now);
        let after = applicable(cookies, url, now);
        assert forall|i: int| 0 <= i < after.len() implies header::is_header_text(
            (#[trigger] after[i]).1,
        ) by {
            if i < before.len() {
                assert(after[i] == before[i]);
            }
        }
    }
}

proof fn lemma_ordered_encodable(list: Seq<(nat, Seq<char>)>)
    requires
        forall|i: int| 0 <= i < list.len() ==> header::is_header_text((#[trigger] list[i]).1),
    ensures
        forall|i: int|
            0 <= i < most_specific_first(list).len() ==> header::is_header_text(
                (#[trigger] most_specific_first(list)[i]).1,
            ),
    decreases list.len(),
{
    if list.len() > 0 {
        let head = list.drop_last();
        assert forall|i: int| 0 <= i < head.len() implies header::is_header_text(
            (#[trigger] head[i]).1,
        ) by {
            assert(header::is_header_text(list[i].1));
        }
        lemma_ordered_encodable(head);
        let before = most_specific_first(head);
        let at = place(before, list.last().0);
        lemma_place(before, list.last().0);
        let after = most_specific_first(list);
        assert(header::is_header_text(list[list.len() - 1].1));
        assert forall|i: int| 0 <= i < after.len() implies header::is_header_text(
            (#[trigger] after[i]).1,
        ) by {
            if i < at {
                assert(after[i] == before[i]);
            } else if i > at {
                assert(after[i] == before[i - 1]);
            }
        }
    }
}

proof fn lemma_join_encodable(parts: Seq<Seq<char>>)
    requires
        forall|i: int| 0 <= i < parts.len() ==> header::is_header_text(#[trigger] parts[i]),
    ensures
        header::is_header_text(text::join(parts, "; "@)),
    decreases parts.len(),
{
    if parts.len() == 0 {
        assert(utf8::encode_utf8(text::join(parts, "; "@)).len() == 0);
    } else if parts.len() > 1 {
        let head = parts.drop_last();
        assert forall|i: int| 0 <= i < head.len() implies header::is_header_text(
            #[trigger] head[i],
        ) by {
            assert(header::is_header_text(parts[i]));
        }
        lemma_join_encodable(head);
        assert(header::is_header_text("; "@)) by {
            reveal_strlit("; ");
            assert(utf8::is_ascii_chars("; "@));
            utf8::is_ascii_chars_encode_utf8("; "@);
        }
        lemma_header_text_append(text::join(head, "; "@), "; "@);
        assert(header::is_header_text(parts[parts.len() - 1]));
        lemma_header_text_append(text::join(head, "; "@) + "; "@, parts.last());
    }
}

/// Cookies that can each be sent can be sent together: no file makes a
/// header that fails.
pub proof fn encodable_cookies_make_a_header(
    cookies: Seq<CookieView>,
    url: (Seq<char>, Seq<char>, Option<Seq<char>>, Seq<char>),
    now: u64,
)
    requires
        forall|i: int| 0 <= i < cookies.len() ==> is_encodable(#[trigger] cookies[i]),
    ensures
        header::is_header_text(header_for(cookies, url, now)),
{
    lemma_applicable_encodable(cookies, url, now);
    let list = applicable(cookies, url, now);
    lemma_ordered_encodable(list);
    let ordered = most_specific_first(list);
    let parts = ordered.map_values(|entry: (nat, Seq<char>)| entry.1);
    assert forall|i: int| 0 <= i < parts.len() implies header::is_header_text(
        #[trigger] parts[i],
    ) by {
        assert(header::is_header_text(ordered[i].1));
    }
    lemma_join_encodable(parts);
}

// ---------------------------------------------------------------------------
// The cookies of a session
// ---------------------------------------------------------------------------

/// Where the cookies of a session come from.
#[derive(Debug)]
pub enum CookieSource {
    /// A raw header, which goes with every request.
    Raw(String),
    /// The entries of a cookies.txt file, each of which goes with the
    /// requests that it belongs to.
    Netscape(Vec<NetscapeCookie>),
}

/// Refuses a cookie file that is too large to read.
pub fn check_cookie_file_size(input: &str, len: u64) -> (r: Result<(), IaGetError>)
    ensures
        r is Err <==> len > MAX_COOKIE_FILE_BYTES,
        r matches Err(e) ==> (e matches IaGetError::FileSystem { detail, source } && source is None
            && detail@ == input@ + ": cookie file exceeds 10485760 bytes"@),
{
    if len > MAX_COOKIE_FILE_BYTES {
        return Err(
            IaGetError::FileSystem {
                detail: text::concat(input, ": cookie file exceeds 10485760 bytes"),
                source: None,
            },
        );
    }
    Ok(())
}

/// Whether an input that names a file is read as one: where the file holds a
/// cookie, or the input does not look like a raw cookie.
pub open spec fn is_cookie_file(input: Seq<char>, content: Seq<char>) -> bool {
    cookies_of(text::split(content, '\n')).len() > 0 || !input.contains('=')
}

/// Whether one of the cookies could go with a request to the host of a URL.
pub open spec fn any_usable(
    cookies: Seq<CookieView>,
    url: (Seq<char>, Seq<char>, Option<Seq<char>>, Seq<char>),
    now: u64,
) -> bool {
    exists|i: int|
        0 <= i < cookies.len() && is_fresh(#[trigger] cookies[i], now) && is_for_host(
            cookies[i],
            url.2,
        )
}

/// The warning for a file without usable cookies.
pub open spec fn no_usable_cookies(input: Seq<char>) -> Seq<(Seq<char>, Style)> {
    seq![
        ("⚠"@, Style::YellowBold),
        (" "@, Style::Plain),
        ("No applicable cookies found in"@, Style::Yellow),
        (" "@, Style::Plain),
        (input, Style::Dimmed),
    ]
}

fn has_usable(cookies: &Vec<NetscapeCookie>, url: &Link, now: u64) -> (r: bool)
    ensures
        r == any_usable(cookie_views(cookies@), url@, now),
{
    let ghost views = cookie_views(cookies@);
    let mut i: usize = 0;
    while i < cookies.len()
        invariant
            i <= cookies.len(),
            views == cookie_views(cookies@),
            forall|k: int|
                0 <= k < i ==> !(is_fresh(#[trigger] views[k], now) && is_for_host(
                    views[k],
                    url@.2,
                )),
        decreases cookies.len() - i,
    {
        let cookie = &cookies[i];
        assert(cookie@ == views[i as int]);
        let fresh = match cookie.expires {
            Some(expires) => expires > now,
            None => true,
        };
        if fresh && cookie_domain_matches(cookie, url) {
            return true;
        }
        i += 1;
    }
    false
}

/// The warnings for a cookies.txt file: for each cookie that cannot be sent,
/// and where none is left that could go with a request.
pub open spec fn file_warnings(
    input: Seq<char>,
    content: Seq<char>,
    url: (Seq<char>, Seq<char>, Option<Seq<char>>, Seq<char>),
    now: u64,
) -> Seq<Seq<(Seq<char>, Style)>> {
    let sorted = sorted_out(cookies_of(text::split(content, '\n')));
    if any_usable(sorted.0, url, now) {
        sorted.1
    } else {
        sorted.1.push(no_usable_cookies(input))
    }
}

/// The cookies of a session from a cookies.txt file at a time, with the
/// warnings to print.
pub fn cookie_source_from_file(input: &str, content: &str, url: &Link, now: u64) -> (r: (
    Vec<NetscapeCookie>,
    Vec<Line>,
))
    ensures
        cookie_views(r.0@) == sorted_out(cookies_of(text::split(content@, '\n'))).0,
        styled::lines(r.1@) == file_warnings(input@, content@, url@, now),
{
    let (cookies, mut warnings) = filter_encodable(parse_netscape_cookies(content));
    if !has_usable(&cookies, url, now) {
        let ghost before = warnings@;
        let mut line = Line::new();
        line.push("⚠", Style::YellowBold);
        line.push(" ", Style::Plain);
        line.push("No applicable cookies found in", Style::Yellow);
        line.push(" ", Style::Plain);
        line.push(input, Style::Dimmed);
        let ghost shown = line@;
        assert(shown =~= no_usable_cookies(input@));
        warnings.push(line);
        assert(styled::lines(warnings@) =~= styled::lines(before).push(shown));
    }
    (cookies, warnings)
}

/// Resolves the cookie input of a session, with the warnings to print.
/// `content` is what the file that the input names holds, where it names
/// one.
///
/// A raw cookie string that merely collides with a file name is kept as a
/// string: the input is a file only where that holds a recognizable cookie,
/// or the input does not look like one.
pub fn cookie_source(cookie_input: Option<&str>, content: Option<&str>, url: &Link) -> (r: Result<
    (Option<CookieSource>, Vec<Line>),
    IaGetError,
>)
    ensures
        match cookie_input {
            None => r matches Ok(pair) && pair.0 is None && pair.1@.len() == 0,
            Some(input) => if content matches Some(text) && is_cookie_file(input@, text@) {
                match r {
                    Ok(pair) => (pair.0 matches Some(CookieSource::Netscape(cookies))
                        && cookie_views(cookies@) == sorted_out(
                        cookies_of(text::split(content->0@, '\n')),
                    ).0) && exists|now: u64|
                        styled::lines(pair.1@) == #[trigger] file_warnings(
                            input@,
                            content->0@,
                            url@,
                            now,
                        ),
                    Err(e) => e is SystemTime,
                }
            } else {
                let raw = text::trim(input@, Trim::Space);
                if header::is_header_text(raw) {
                    r matches Ok(pair) && pair.1@.len() == 0 && (pair.0 matches Some(
                        CookieSource::Raw(header),
                    ) && header@ == raw)
                } else {
                    r matches Err(e) && (e matches IaGetError::InvalidCookie(message) && message@
                        == "failed to parse header value"@)
                }
            },
        },
{
    let input = match cookie_input {
        Some(input) => input,
        None => {
            return Ok((None, Vec::new()));
        },
    };
    if let Some(file) = content {
        let ghost found = cookies_of(text::split(file@, '\n'));
        let listed = parse_netscape_cookies(file);
        assert(cookie_views(listed@).len() == listed@.len());
        if listed.len() > 0 || !text::has_char(&text::chars_of(input), '=') {
            let now: u64 = match clock::now_secs() {
                Ok(now) => now,
                Err(e) => {
                    return Err(e);
                },
            };
            let (cookies, warnings) = cookie_source_from_file(input, file, url, now);
            return Ok((Some(CookieSource::Netscape(cookies)), warnings));
        }
    }
    match header_value(&text::trim_text(input, Trim::Space)) {
        Ok(value) => Ok((Some(CookieSource::Raw(value)), Vec::new())),
        Err(message) => Err(IaGetError::InvalidCookie(message)),
    }
}

/// What a session sends to a URL at a time: a raw header always; of the
/// entries of a file those that belong there, and nothing where none does.
pub open spec fn sent(
    source: Option<CookieSource>,
    url: (Seq<char>, Seq<char>, Option<Seq<char>>, Seq<char>),
    now: u64,
) -> Option<Seq<char>> {
    match source {
        None => None,
        Some(CookieSource::Raw(header)) => Some(header@),
        Some(CookieSource::Netscape(cookies)) => {
            let header = header_for(cookie_views(cookies@), url, now);
            if header.len() == 0 {
                None
            } else {
                Some(header)
            }
        },
    }
}

proof fn lemma_nothing_applies(
    cookies: Seq<CookieView>,
    url: (Seq<char>, Seq<char>, Option<Seq<char>>, Seq<char>),
    now: u64,
)
    requires
        !(url.2 matches Some(host) && is_archive_org(text::lowered(host))),
    ensures
        applicable(cookies, url, now).len() == 0,
    decreases cookies.len(),
{
    if cookies.len() > 0 {
        lemma_nothing_applies(cookies.drop_last(), url, now);
        if applies(cookies.last(), url, now) {
            cookies_stay_on_archive_org(cookies.last(), url, now);
        }
    }
}

/// The entries of a file make a header for archive.org and its subdomains
/// alone: a request to any other host goes without.
pub proof fn file_headers_stay_on_archive_org(
    cookies: Vec<NetscapeCookie>,
    url: (Seq<char>, Seq<char>, Option<Seq<char>>, Seq<char>),
    now: u64,
)
    ensures
        sent(Some(CookieSource::Netscape(cookies)), url, now) is Some ==> (url.2 matches Some(host)
            && is_archive_org(text::lowered(host))),
{
    if !(url.2 matches Some(host) && is_archive_org(text::lowered(host))) {
        lemma_nothing_applies(cookie_views(cookies@), url, now);
    }
}

/// A source, where there is one.
pub open spec fn source_value(source: Option<&CookieSource>) -> Option<CookieSource> {
    match source {
        Some(s) => Some(*s),
        None => None,
    }
}

/// Whether an outcome is the header that is sent at a time, or the error for
/// one that cannot be.
pub open spec fn is_header_outcome(
    r: Result<Option<String>, IaGetError>,
    source: Option<CookieSource>,
    url: (Seq<char>, Seq<char>, Option<Seq<char>>, Seq<char>),
    now: u64,
) -> bool {
    let header = sent(source, url, now);
    if source matches Some(CookieSource::Netscape(_)) && header is Some && !header::is_header_text(
        header->0,
    ) {
        r matches Err(e) && (e matches IaGetError::InvalidCookie(message) && message@
            == "failed to parse header value"@)
    } else {
        r matches Ok(value) && text::maybe(value) == header
    }
}

/// The `Cookie` header for a request at a time.
pub fn cookie_header_for_at(source: Option<&CookieSource>, url: &Link, now: u64) -> (r: Result<
    Option<String>,
    IaGetError,
>)
    ensures
        is_header_outcome(r, source_value(source), url@, now),
{
    match source {
        None => Ok(None),
        Some(CookieSource::Raw(header)) => Ok(Some(header.clone())),
        Some(CookieSource::Netscape(cookies)) => {
            let header = cookie_header_at(cookies, url, now);
            if text::chars_of(&header).len() == 0 {
                return Ok(None);
            }
            match header_value(&header) {
                Ok(value) => Ok(Some(value)),
                Err(message) => Err(IaGetError::InvalidCookie(message)),
            }
        },
    }
}

/// The `Cookie` header for a request: the raw string as it is; of the
/// entries of a file those that belong to the URL now, and no header where
/// none does.
pub fn cookie_header_for(source: Option<&CookieSource>, url: &Link) -> (r: Result<
    Option<String>,
    IaGetError,
>)
    ensures
        match source_value(source) {
            None => r matches Ok(value) && value is None,
            Some(CookieSource::Raw(header)) => r matches Ok(value) && text::maybe(value) == Some(
                header@,
            ),
            Some(CookieSource::Netscape(_)) => (r matches Err(e) && e is SystemTime) || exists|
                now: u64,
            | is_header_outcome(r, source_value(source), url@, now),
        },
{
    match source {
        Some(CookieSource::Netscape(_)) => {
            let now: u64 = match clock::now_secs() {
                Ok(now) => now,
                Err(e) => {
                    return Err(e);
                },
            };
            let r = cookie_header_for_at(source, url, now);
            assert(is_header_outcome(r, source_value(source), url@, now));
            r
        },
        _ => cookie_header_for_at(source, url, 0),
    }
}

/// The header that the content of a cookies.txt file makes for a URL, with
/// the warnings to print.
pub fn cookie_header_from_netscape_file(content: &str, url: &Link) -> (r: Result<
    (String, Vec<Line>),
    IaGetError,
>)
    ensures
        match r {
            Ok(pair) => {
                let sorted = sorted_out(cookies_of(text::split(content@, '\n')));
                &&& exists|now: u64| pair.0@ == #[trigger] header_for(sorted.0, url@, now)
                &&& styled::lines(pair.1@) == sorted.1
            },
            Err(e) => e is SystemTime,
        },
{
    let (cookies, warnings) = filter_encodable(parse_netscape_cookies(content));
    match clock::now_secs() {
        Ok(now) => {
            let header = cookie_header_at(&cookies, url, now);
            Ok((header, warnings))
        },
        Err(e) => Err(e),
    }
}

/// The header for one URL, from the cookie input: no header where no cookie
/// belongs there.
pub fn cookie_header_value(cookie_input: Option<&str>, content: Option<&str>, url: &Link) -> (r:
    Result<(Option<String>, Vec<Line>), IaGetError>)
    ensures
        match cookie_input {
            None => r matches Ok(pair) && pair.0 is None && pair.1@.len() == 0,
            Some(input) => if content matches Some(text) && is_cookie_file(input@, text@) {
                match r {
                    Ok(pair) => {
                        &&& exists|now: u64|
                            text::maybe(pair.0) == header_or_none(
                                #[trigger] header_for(
                                    sorted_out(cookies_of(text::split(content->0@, '\n'))).0,
                                    url@,
                                    now,
                                ),
                            )
                        &&& exists|now: u64|
                            styled::lines(pair.1@) == #[trigger] file_warnings(
                                input@,
                                content->0@,
                                url@,
                                now,
                            )
                    },
                    Err(e) => e is SystemTime,
                }
            } else {
                let raw = text::trim(input@, Trim::Space);
                if header::is_header_text(raw) {
                    r matches Ok(pair) && pair.1@.len() == 0 && text::maybe(pair.0) == Some(raw)
                } else {
                    r matches Err(e) && (e matches IaGetError::InvalidCookie(message) && message@
                        == "failed to parse header value"@)
                }
            },
        },
{
    match cookie_source(cookie_input, content, url) {
        Err(e) => Err(e),
        Ok((source, warnings)) => {
            let found = match &source {
                Some(s) => cookie_header_for(Some(s), url),
                None => Ok(None),
            };
            proof {
                if source matches Some(CookieSource::Netscape(cookies)) && !(found is Err
                    && found->Err_0 is SystemTime) {
                    let now = choose|now: u64| is_header_outcome(found, source, url@, now);
                    let kept = cookie_views(source->0->Netscape_0@);
                    assert forall|i: int| 0 <= i < kept.len() implies is_encodable(
                        #[trigger] kept[i],
                    ) by {
                        kept_cookies_are_encodable(cookies_of(text::split(content->0@, '\n')), i);
                    }
                    encodable_cookies_make_a_header(kept, url@, now);
                    assert(text::maybe(found->Ok_0) == header_or_none(
                        header_for(cookie_views(source->0->Netscape_0@), url@, now),
                    ));
                }
            }
            match found {
                Ok(header) => Ok((header, warnings)),
                Err(e) => Err(e),
            }
        },
    }
}

/// A header, or none where it is empty.
pub open spec fn header_or_none(header: Seq<char>) -> Option<Seq<char>> {
    if header.len() == 0 {
        None
    } else {
        Some(header)
    }
}

/// A header as text: empty where there is none, or where it does not read as
/// text.
pub open spec fn as_shown(header: Option<Seq<char>>) -> Seq<char> {
    match header {
        Some(value) => if header::is_visible(utf8::encode_utf8(value)) {
            header::visible_chars(utf8::encode_utf8(value))
        } else {
            Seq::empty()
        },
        None => Seq::empty(),
    }
}

/// The header for one URL as text, from the cookie input: empty where there
/// is none, or where it does not read as text.
pub fn cookie_header_from_input(input: &str, content: Option<&str>, url: &Link) -> (r: Result<
    (String, Vec<Line>),
    IaGetError,
>)
    ensures
        if content matches Some(text) && is_cookie_file(input@, text@) {
            match r {
                Ok(pair) => {
                    &&& exists|now: u64|
                        pair.0@ == as_shown(
                            header_or_none(
                                #[trigger] header_for(
                                    sorted_out(cookies_of(text::split(content->0@, '\n'))).0,
                                    url@,
                                    now,
                                ),
                            ),
                        )
                    &&& exists|now: u64|
                        styled::lines(pair.1@) == #[trigger] file_warnings(
                            input@,
                            content->0@,
                            url@,
                            now,
                        )
                },
                Err(e) => e is SystemTime,
            }
        } else {
            let raw = text::trim(input@, Trim::Space);
            if header::is_header_text(raw) {
                r matches Ok(pair) && pair.1@.len() == 0 && pair.0@ == as_shown(Some(raw))
            } else {
                r matches Err(e) && (e matches IaGetError::InvalidCookie(message) && message@
                    == "failed to parse header value"@)
            }
        },
{
    match cookie_header_value(Some(input), content, url) {
        Err(e) => Err(e),
        Ok((header, warnings)) => {
            let shown = match header {
                Some(value) => match header_text(value.as_str().as_bytes()) {
                    Some(shown) => shown,
                    None => String::new(),
                },
                None => String::new(),
            };
            Ok((shown, warnings))
        },
    }
}

// ---------------------------------------------------------------------------
// What a cookies.txt file promises
// ---------------------------------------------------------------------------

/// A text without white space at its ends.
pub open spec fn is_bare(s: Seq<char>) -> bool {
    s.len() > 0 && !Trim::Space.has(s.first()) && !Trim::Space.has(s.last())
}

/// An entry that is marked as one that scripts cannot read defines the same
/// cookie as without the mark: the mark is no comment.
pub proof fn marked_entries_define_their_cookie(entry: Seq<char>)
    requires
        is_bare(entry),
        entry.first() != '#',
    ensures
        cookie_of("#HttpOnly_"@ + entry) == cookie_of(entry),
        cookies_of(seq!["#HttpOnly_"@ + entry]) == cookies_of(seq![entry]),
{
    reveal_strlit("#HttpOnly_");
    let mark = "#HttpOnly_"@;
    let line = mark + entry;
    assert(line.first() == '#');
    assert(line.last() == entry.last());
    text::trimmed_texts_stay(line, Trim::Space);
    text::trimmed_texts_stay(entry, Trim::Space);
    assert(line.subrange(0, mark.len() as int) =~= mark);
    assert(mark.is_prefix_of(line));
    assert(line.skip(mark.len() as int) =~= entry);
    assert(!mark.is_prefix_of(entry)) by {
        if mark.is_prefix_of(entry) {
            assert(entry.subrange(0, mark.len() as int)[0] == mark[0]);
        }
    }
    lemma_one_line(line);
    lemma_one_line(entry);
}

proof fn lemma_one_line(line: Seq<char>)
    ensures
        cookies_of(seq![line]) == (match cookie_of(line) {
            Some(cookie) => seq![cookie],
            None => Seq::empty(),
        }),
{
    assert(seq![line].drop_last() =~= Seq::<Seq<char>>::empty());
    assert(cookies_of(Seq::empty()) =~= Seq::empty());
    if let Some(cookie) = cookie_of(line) {
        assert(cookies_of(seq![line]) =~= seq![cookie]);
    }
}

/// An entry of seven fields with tabs between them defines a cookie of those
/// fields: the domain in lower case without dots in front, whether it is for
/// subdomains, the path, whether it is for https alone, when it expires, the
/// name and the value.
pub proof fn seven_fields_define_a_cookie(
    dots: Seq<char>,
    domain: Seq<char>,
    subdomains: Seq<char>,
    path: Seq<char>,
    secure: Seq<char>,
    expires: nat,
    name: Seq<char>,
    value: Seq<char>,
    entry: Seq<char>,
)
    requires
        forall|i: int| 0 <= i < dots.len() ==> #[trigger] dots[i] == '.',
        domain.len() > 0 && domain.first() != '.' && domain.first() != '#',
        expires <= u64::MAX,
        !dots.contains('\t') && !domain.contains('\t') && !subdomains.contains('\t')
            && !path.contains('\t') && !secure.contains('\t') && !name.contains('\t')
            && !value.contains('\t'),
        entry == text::join(
            seq![
                dots + domain,
                subdomains,
                path,
                secure,
                text::decimal(expires),
                name,
                value,
            ],
            seq!['\t'],
        ),
        is_bare(entry),
    ensures
        cookie_of(entry) matches Some(cookie) && {
            &&& cookie.domain == text::lowered(domain)
            &&& cookie.include_subdomains <==> text::lowered(subdomains) == text::lowered("TRUE"@)
            &&& cookie.path == path
            &&& cookie.secure <==> text::lowered(secure) == text::lowered("TRUE"@)
            &&& cookie.expires == (if expires == 0 {
                None
            } else {
                Some(expires as u64)
            })
            &&& cookie.name == name
            &&& cookie.value == value
        },
        cookies_of(seq![entry]).len() == 1,
{
    let number = text::decimal(expires);
    let fields = seq![dots + domain, subdomains, path, secure, number, name, value];
    text::lemma_decimal(expires);
    text::reading_a_written_number(expires);
    assert forall|i: int| 0 <= i < fields.len() implies !(#[trigger] fields[i]).contains('\t') by {
        if i == 0 {
            let first = dots + domain;
            assert forall|k: int| 0 <= k < first.len() implies first[k] != '\t' by {
                if k < dots.len() {
                    assert(dots.contains(dots[k]));
                } else {
                    assert(domain.contains(domain[k - dots.len()]));
                }
            }
        } else if i == 4 {
            assert forall|k: int| 0 <= k < number.len() implies number[k] != '\t' by {
                assert(text::is_digit(number[k]));
            }
        }
    }
    text::lemma_split_join(fields, '\t');
    text::trimmed_texts_stay(entry, Trim::Space);
    lemma_join_first(fields, '\t');
    assert((dots + domain).first() == entry.first());
    assert(entry.first() != '#') by {
        if dots.len() > 0 {
            assert((dots + domain).first() == dots[0]);
        } else {
            assert(dots + domain =~= domain);
        }
    }
    reveal_strlit("#HttpOnly_");
    let mark = "#HttpOnly_"@;
    assert(!mark.is_prefix_of(entry)) by {
        if mark.is_prefix_of(entry) {
            assert(entry.subrange(0, mark.len() as int)[0] == mark[0]);
        }
    }
    assert(text::trim_front(dots + domain, Trim::Dot) == domain) by {
        lemma_dots(dots, domain);
    }
    lemma_one_line(entry);
}

proof fn lemma_dots(dots: Seq<char>, domain: Seq<char>)
    requires
        forall|i: int| 0 <= i < dots.len() ==> #[trigger] dots[i] == '.',
        domain.len() > 0 && domain.first() != '.',
    ensures
        text::trim_front(dots + domain, Trim::Dot) == domain,
    decreases dots.len(),
{
    if dots.len() == 0 {
        assert(dots + domain =~= domain);
    } else {
        assert((dots + domain).first() == dots[0]);
        assert((dots + domain).skip(1) =~= dots.skip(1) + domain);
        lemma_dots(dots.skip(1), domain);
    }
}

proof fn lemma_join_first(parts: Seq<Seq<char>>, sep: char)
    requires
        parts.len() > 0,
        parts[0].len() > 0,
    ensures
        text::join(parts, seq![sep]).len() > 0,
        text::join(parts, seq![sep]).first() == parts[0].first(),
    decreases parts.len(),
{
    if parts.len() > 1 {
        lemma_join_first(parts.drop_last(), sep);
    }
}

/// A comment, an empty line and one of fewer than seven fields define no
/// cookie; every line counts for itself, in order.
pub proof fn other_lines_define_nothing(line: Seq<char>, a: Seq<Seq<char>>, b: Seq<Seq<char>>)
    requires
        is_bare(line),
    ensures
        line.first() == '#' && !"#HttpOnly_"@.is_prefix_of(line) ==> cookie_of(line) is None,
        line.first() != '#' && text::split(line, '\t').len() < 7 ==> cookie_of(line) is None,
        cookie_of(Seq::empty()) is None,
        cookies_of(a + b) == cookies_of(a) + cookies_of(b),
    decreases b.len(),
{
    text::trimmed_texts_stay(line, Trim::Space);
    text::trimmed_texts_stay(Seq::empty(), Trim::Space);
    reveal_strlit("#HttpOnly_");
    if line.first() != '#' && "#HttpOnly_"@.is_prefix_of(line) {
        assert(line.subrange(0, "#HttpOnly_"@.len() as int)[0] == "#HttpOnly_"@[0]);
    }
    if b.len() == 0 {
        assert(a + b =~= a);
    } else {
        assert((a + b).drop_last() =~= a + b.drop_last());
        other_lines_define_nothing(line, a, b.drop_last());
        assert(cookies_of(a + b) =~= cookies_of(a) + cookies_of(b));
    }
}

/// White space around a line changes nothing.
pub proof fn white_space_around_lines_is_nothing(front: Seq<char>, line: Seq<char>, back: Seq<char>)
    requires
        is_bare(line),
        forall|i: int| 0 <= i < front.len() ==> Trim::Space.has(#[trigger] front[i]),
        forall|i: int| 0 <= i < back.len() ==> Trim::Space.has(#[trigger] back[i]),
    ensures
        cookie_of(front + line + back) == cookie_of(line),
{
    text::trimming_leaves_the_middle(front, line, back, Trim::Space);
    text::trimmed_texts_stay(line, Trim::Space);
}

// ---------------------------------------------------------------------------
// Where cookies go
// ---------------------------------------------------------------------------

/// A cookie goes with a request exactly where it has not expired, its scheme
/// allows it, its domain is archive.org or below and is the host or, where
/// it is for subdomains, one that the host is below, and its path is the
/// request's or leads to it.
pub proof fn cookies_go_where_they_belong(
    cookie: CookieView,
    url: (Seq<char>, Seq<char>, Option<Seq<char>>, Seq<char>),
    now: u64,
)
    ensures
        applies(cookie, url, now) <==> {
            &&& cookie.expires is None || cookie.expires->0 > now
            &&& !cookie.secure || url.1 == "https"@
            &&& cookie.domain == "archive.org"@ || ".archive.org"@.is_suffix_of(cookie.domain)
            &&& url.2 is Some
            &&& text::lowered(url.2->0) == cookie.domain || (cookie.include_subdomains && (seq!['.']
                + cookie.domain).is_suffix_of(text::lowered(url.2->0)))
            &&& {
                ||| cookie.path.len() == 0 && url.3.len() > 0 && url.3.first() == '/'
                ||| cookie.path.len() > 0 && cookie.path == url.3
                ||| cookie.path.len() > 0 && cookie.path.last() == '/' && cookie.path.is_prefix_of(
                    url.3,
                )
                ||| cookie.path.len() > 0 && (cookie.path + seq!['/']).is_prefix_of(url.3)
            }
        },
{
    reveal_strlit(".");
    assert("."@ =~= seq!['.']);
    reveal_strlit("/");
    assert("/"@ =~= seq!['/']);
    let path = url.3;
    let scope = if cookie.path.len() == 0 {
        "/"@
    } else {
        cookie.path
    };
    assert(seq!['/'].is_prefix_of(path) <==> path.len() > 0 && path.first() == '/') by {
        if path.len() > 0 && path.first() == '/' {
            assert(path.subrange(0, 1) =~= seq!['/']);
        }
        if seq!['/'].is_prefix_of(path) {
            assert(path.subrange(0, 1)[0] == '/');
        }
    }
    assert((scope + seq!['/']).is_prefix_of(path) <==> scope.is_prefix_of(path) && path.len()
        > scope.len() && path[scope.len() as int] == '/') by {
        let longer = scope + seq!['/'];
        let n = scope.len() as int;
        if longer.is_prefix_of(path) {
            assert(path.subrange(0, n + 1) == longer);
            assert(path.subrange(0, n) =~= scope) by {
                assert forall|i: int| 0 <= i < n implies path[i] == scope[i] by {
                    assert(path.subrange(0, n + 1)[i] == longer[i]);
                }
            }
            assert(path.subrange(0, n + 1)[n] == longer[n]);
        }
        if scope.is_prefix_of(path) && path.len() > n && path[n] == '/' {
            assert(path.subrange(0, n + 1) =~= longer) by {
                assert forall|i: int| 0 <= i < n implies path[i] == scope[i] by {
                    assert(path.subrange(0, n)[i] == scope[i]);
                }
            }
        }
    }
    if cookie.path.len() > 0 && cookie.path == path {
        assert(path.subrange(0, path.len() as int) =~= path);
    }
}

/// Of the cookies of a file, those that go with a request are in its header,
/// each as its name and value with an equals sign between, weighed by the
/// bytes of its path; the others are not.
pub proof fn headers_hold_what_goes_with_a_request(
    a: Seq<CookieView>,
    b: Seq<CookieView>,
    cookie: CookieView,
    url: (Seq<char>, Seq<char>, Option<Seq<char>>, Seq<char>),
    now: u64,
)
    ensures
        applicable(a + b, url, now) == applicable(a, url, now) + applicable(b, url, now),
        applicable(seq![cookie], url, now) == (if applies(cookie, url, now) {
            seq![
                (utf8::encode_utf8(cookie.path).len(), cookie.name + seq!['='] + cookie.value),
            ]
        } else {
            Seq::empty()
        }),
        header_for(seq![cookie], url, now) == (if applies(cookie, url, now) {
            cookie.name + seq!['='] + cookie.value
        } else {
            Seq::empty()
        }),
    decreases b.len(),
{
    reveal_strlit("=");
    assert("="@ =~= seq!['=']);
    assert(seq![cookie].drop_last() =~= Seq::<CookieView>::empty());
    let one = applicable(seq![cookie], url, now);
    assert(applicable(Seq::<CookieView>::empty(), url, now) =~= Seq::empty());
    assert(seq![cookie].last() == cookie);
    assert(most_specific_first(Seq::empty()) =~= Seq::<(nat, Seq<char>)>::empty());
    if applies(cookie, url, now) {
        assert(one =~= seq![
            (utf8::encode_utf8(cookie.path).len(), cookie.name + seq!['='] + cookie.value),
        ]);
        assert(one.drop_last() =~= Seq::<(nat, Seq<char>)>::empty());
        assert(most_specific_first(Seq::empty()) =~= Seq::<(nat, Seq<char>)>::empty());
        assert(most_specific_first(one) =~= one);
        let texts = most_specific_first(one).map_values(|entry: (nat, Seq<char>)| entry.1);
        assert(texts =~= seq![cookie.name + seq!['='] + cookie.value]);
    } else {
        let texts = most_specific_first(one).map_values(|entry: (nat, Seq<char>)| entry.1);
        assert(texts =~= Seq::<Seq<char>>::empty());
    }
    if b.len() == 0 {
        assert(a + b =~= a);
        assert(applicable(b, url, now) =~= Seq::empty());
        assert(applicable(a, url, now) + applicable(b, url, now) =~= applicable(a, url, now));
    } else {
        assert((a + b).drop_last() =~= a + b.drop_last());
        headers_hold_what_goes_with_a_request(a, b.drop_last(), cookie, url, now);
        assert(applicable(a + b, url, now) =~= applicable(a, url, now) + applicable(b, url, now));
    }
}

/// A header is made of its entries with a semicolon and a blank between
/// them.
pub proof fn headers_are_joined(
    cookies: Seq<CookieView>,
    url: (Seq<char>, Seq<char>, Option<Seq<char>>, Seq<char>),
    now: u64,
)
    ensures
        header_for(cookies, url, now) == text::join(
            most_specific_first(applicable(cookies, url, now)).map_values(
                |entry: (nat, Seq<char>)| entry.1,
            ),
            seq![';', ' '],
        ),
{
    reveal_strlit("; ");
    assert("; "@ =~= seq![';', ' ']);
}

/// A raw header goes with every request as it is; without cookies nothing
/// goes.
pub proof fn raw_headers_always_go(
    header: String,
    url: (Seq<char>, Seq<char>, Option<Seq<char>>, Seq<char>),
    now: u64,
)
    ensures
        sent(Some(CookieSource::Raw(header)), url, now) == Some(header@),
        sent(None, url, now) is None,
{
}

/// Of the cookies of a file every one is kept, or left out with a warning
/// that names it, and left out only where its name and value cannot be sent.
pub proof fn cookies_are_kept_or_warned_of(
    a: Seq<CookieView>,
    b: Seq<CookieView>,
    cookie: CookieView,
)
    ensures
        sorted_out(a + b).0 == sorted_out(a).0 + sorted_out(b).0,
        sorted_out(a + b).1 == sorted_out(a).1 + sorted_out(b).1,
        header::is_header_text(cookie.name + seq!['='] + cookie.value) ==> sorted_out(seq![cookie])
            == (seq![cookie], Seq::<Seq<(Seq<char>, Style)>>::empty()),
        !header::is_header_text(cookie.name + seq!['='] + cookie.value) ==> sorted_out(
            seq![cookie],
        ).0.len() == 0 && sorted_out(seq![cookie]).1.len() == 1 && sorted_out(
            seq![cookie],
        ).1[0].contains((cookie.name, Style::Dimmed)),
    decreases b.len(),
{
    reveal_strlit("=");
    assert("="@ =~= seq!['=']);
    assert(seq![cookie].drop_last() =~= Seq::<CookieView>::empty());
    assert(sorted_out(Seq::empty()).0 =~= Seq::<CookieView>::empty());
    if is_encodable(cookie) {
        assert(sorted_out(seq![cookie]).0 =~= seq![cookie]);
    } else {
        assert(sorted_out(seq![cookie]).1[0][4] == (cookie.name, Style::Dimmed));
    }
    if b.len() == 0 {
        assert(a + b =~= a);
        assert(sorted_out(a).0 + sorted_out(b).0 =~= sorted_out(a).0);
        assert(sorted_out(a).1 + sorted_out(b).1 =~= sorted_out(a).1);
    } else {
        assert((a + b).drop_last() =~= a + b.drop_last());
        cookies_are_kept_or_warned_of(a, b.drop_last(), cookie);
        assert(sorted_out(a + b).0 =~= sorted_out(a).0 + sorted_out(b).0);
        assert(sorted_out(a + b).1 =~= sorted_out(a).1 + sorted_out(b).1);
    }
}

/// An input that names a file is read as one exactly where a line of the
/// file defines a cookie, or the input holds no equals sign.
pub proof fn raw_cookies_are_told_from_files(input: Seq<char>, content: Seq<char>)
    ensures
        is_cookie_file(input, content) <==> (exists|i: int|
            0 <= i < text::split(content, '\n').len() && cookie_of(
                #[trigger] text::split(content, '\n')[i],
            ) is Some) || (forall|i: int| 0 <= i < input.len() ==> #[trigger] input[i] != '='),
{
    lemma_some_cookie(text::split(content, '\n'));
    if !input.contains('=') {
        assert forall|i: int| 0 <= i < input.len() implies #[trigger] input[i] != '=' by {
            assert(input.contains(input[i]));
        }
    }
}

proof fn lemma_some_cookie(lines: Seq<Seq<char>>)
    ensures
        cookies_of(lines).len() > 0 <==> exists|i: int|
            0 <= i < lines.len() && cookie_of(#[trigger] lines[i]) is Some,
    decreases lines.len(),
{
    if lines.len() > 0 {
        let head = lines.drop_last();
        lemma_some_cookie(head);
        assert forall|i: int| 0 <= i < head.len() implies #[trigger] head[i] == lines[i] by {}
        assert forall|i: int| 0 <= i < head.len() implies head[i] == #[trigger] lines[i] by {}
        assert(lines[lines.len() - 1] == lines.last());
    }
}

/// A file is warned of exactly where no cookie that can be sent is both
/// fresh and for the host, whatever its path; the warning comes last and
/// names the file.
pub proof fn useless_files_are_warned_of(
    input: Seq<char>,
    content: Seq<char>,
    url: (Seq<char>, Seq<char>, Option<Seq<char>>, Seq<char>),
    now: u64,
)
    ensures
        ({
            let sorted = sorted_out(cookies_of(text::split(content, '\n')));
            let useless = forall|i: int|
                0 <= i < sorted.0.len() ==> ((#[trigger] sorted.0[i]).expires matches Some(e) && e
                    <= now) || !is_for_host(sorted.0[i], url.2);
            let warnings = file_warnings(input, content, url, now);
            if useless {
                warnings.len() == sorted.1.len() + 1 && warnings.drop_last() == sorted.1
                    && warnings.last().contains((input, Style::Dimmed))
            } else {
                warnings == sorted.1
            }
        }),
{
    let sorted = sorted_out(cookies_of(text::split(content, '\n')));
    let warnings = file_warnings(input, content, url, now);
    if any_usable(sorted.0, url, now) {
        let i = choose|i: int|
            0 <= i < sorted.0.len() && is_fresh(#[trigger] sorted.0[i], now) && is_for_host(
                sorted.0[i],
                url.2,
            );
        assert(is_fresh(sorted.0[i], now));
    } else {
        assert forall|i: int| 0 <= i < sorted.0.len() implies ((
        #[trigger] sorted.0[i]).expires matches Some(e) && e <= now) || !is_for_host(
            sorted.0[i],
            url.2,
        ) by {
            assert(!(is_fresh(sorted.0[i], now) && is_for_host(sorted.0[i], url.2)));
        }
        assert(warnings.drop_last() =~= sorted.1);
        assert(warnings.last()[4] == (input, Style::Dimmed));
    }
}

/// An entry of seven fields or more defines a cookie of the first seven,
/// whatever follows them. An expiry that is no number of 64 bits, or zero, is
/// none: the cookie lasts for the session.
pub proof fn further_fields_are_nothing(fields: Seq<Seq<char>>, more: Seq<char>, entry: Seq<char>)
    requires
        fields.len() >= 7,
        forall|i: int| 0 <= i < fields.len() ==> !(#[trigger] fields[i]).contains('\t'),
        !more.contains('\t'),
        entry == text::join(fields, seq!['\t']),
        is_bare(entry),
        is_bare(entry + seq!['\t'] + more),
        entry.first() != '#',
    ensures
        cookie_of(entry) is Some,
        cookie_of(entry + seq!['\t'] + more) == cookie_of(entry),
        cookie_of(entry) matches Some(cookie) && {
            &&& cookie.name == fields[5]
            &&& cookie.value == fields[6]
            &&& cookie.path == fields[2]
            &&& text::unsigned(fields[4]) is None ==> cookie.expires is None
            &&& text::unsigned(fields[4]) matches Some(n) ==> cookie.expires == (if 0 < n
                <= 0xffff_ffff_ffff_ffff {
                Some(n as u64)
            } else {
                None
            })
        },
{
    let longer = entry + seq!['\t'] + more;
    text::lemma_split_join(fields, '\t');
    text::lemma_split_append(entry, more, '\t');
    text::trimmed_texts_stay(entry, Trim::Space);
    text::trimmed_texts_stay(longer, Trim::Space);
    reveal_strlit("#HttpOnly_");
    let mark = "#HttpOnly_"@;
    assert(longer.first() == entry.first());
    assert(!mark.is_prefix_of(entry)) by {
        if mark.is_prefix_of(entry) {
            assert(entry.subrange(0, mark.len() as int)[0] == mark[0]);
        }
    }
    assert(!mark.is_prefix_of(longer)) by {
        if mark.is_prefix_of(longer) {
            assert(longer.subrange(0, mark.len() as int)[0] == mark[0]);
        }
    }
}

/// The header of a file is sent where any cookie of it goes with the request;
/// one that cannot be sent is an error, while a raw one is handed on as it
/// is, and without cookies there is none.
pub proof fn headers_are_sent_or_refused(
    r: Result<Option<String>, IaGetError>,
    source: Option<CookieSource>,
    url: (Seq<char>, Seq<char>, Option<Seq<char>>, Seq<char>),
    now: u64,
)
    requires
        is_header_outcome(r, source, url, now),
    ensures
        source is None ==> r == Ok::<Option<String>, IaGetError>(None),
        source matches Some(CookieSource::Raw(header)) ==> (r matches Ok(Some(value)) && value@
            == header@),
        source matches Some(CookieSource::Netscape(cookies)) ==> ({
            let header = header_for(cookie_views(cookies@), url, now);
            &&& r is Err <==> header.len() > 0 && !header::is_header_text(header)
            &&& r matches Err(e) ==> e is InvalidCookie
            &&& r matches Ok(None) ==> header.len() == 0
            &&& r matches Ok(Some(value)) ==> value@ == header && header.len() > 0
        }),
{
}

/// A header without entries is none, and any other is there; it is shown
/// where all of it is visible, and as nothing where it is not.
pub proof fn empty_headers_are_none(header: Seq<char>)
    ensures
        header_or_none(Seq::empty()) is None,
        header.len() > 0 ==> header_or_none(header) == Some(header),
        as_shown(None).len() == 0,
        (forall|i: int| 0 <= i < header.len() ==> ' ' <= #[trigger] header[i] <= '~') ==> as_shown(
            Some(header),
        ) == header,
        (exists|i: int|
            0 <= i < utf8::encode_utf8(header).len() && (#[trigger] utf8::encode_utf8(header)[i]
                > 126)) ==> as_shown(Some(header)).len() == 0,
{
    let bytes = utf8::encode_utf8(header);
    if forall|i: int| 0 <= i < header.len() ==> ' ' <= #[trigger] header[i] <= '~' {
        utf8::is_ascii_chars_encode_utf8(header);
        assert forall|i: int| 0 <= i < bytes.len() implies 32 <= #[trigger] bytes[i] <= 126
            && bytes[i] as char == header[i] by {
            assert(' ' <= header[i] <= '~');
        }
        header::visible_headers_are_read(Some(bytes), header);
    }
    if let Some(read) = header::header_reads(Some(bytes)) {
        header::visible_headers_are_read(Some(bytes), read);
    }
}

} // verus!
