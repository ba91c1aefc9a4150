//! `nxm://` links, as emitted by the Nexus "Mod Manager Download" button:
//! `nxm://<domain>/mods/<mod_id>/files/<file_id>?key=<k>&expires=<ts>&user_id=<id>`.
//! The query part is present for free-account downloads and absent for
//! premium direct links. URL syntax itself is read by the `url` crate.

use vstd::prelude::*;
use crate::error::Error;
use crate::fomod::slash_joined;
use crate::text::{opt_str, owned, parse_u64, parse_u64_str, push_char, push_str, str_eq, trim, trim_str, views};

verus! {

/// A parsed `nxm://` link.
#[derive(Debug, Clone, PartialEq, Eq)]
pub struct NxmLink {
    pub domain: String,
    pub mod_id: u64,
    pub file_id: u64,
    /// One-time download key (free accounts).
    pub key: Option<String>,
    /// Unix expiry of the key.
    pub expires: Option<u64>,
    pub user_id: Option<u64>,
}

/// What the `url` crate reads out of a URL: its scheme, host, path segments
/// (when the URL has a hierarchical path) and decoded query pairs.
#[derive(Debug, Clone)]
pub struct UrlParts {
    pub scheme: String,
    pub host: Option<String>,
    pub segments: Option<Vec<String>>,
    pub query: Vec<(String, String)>,
}

/// The text of [`UrlParts`].
pub struct UrlView {
    pub scheme: Seq<char>,
    pub host: Option<Seq<char>>,
    pub segments: Option<Seq<Seq<char>>>,
    pub query: Seq<(Seq<char>, Seq<char>)>,
}

impl View for UrlParts {
    type V = UrlView;

    open spec fn view(&self) -> UrlView {
        UrlView {
            scheme: self.scheme@,
            host: opt_str(self.host),
            segments: match self.segments {
                Some(v) => Some(views(v@)),
                None => None,
            },
            query: self.query@.map_values(|p: (String, String)| (p.0@, p.1@)),
        }
    }
}

/// `url::Url::parse` of a text, read into its parts; `None` when the text
/// is not a URL.
pub uninterp spec fn url_reading(text: Seq<char>) -> Option<UrlView>;

/// Parses a URL with `url::Url::parse` and reads its scheme (`scheme`),
/// host (`host_str`), path segments (`path_segments`) and decoded query
/// pairs (`query_pairs`). The contract names the result [`url_reading`] of
/// the text; URL syntax is not restated, and of a failure only the parser's
/// message is returned, with nothing stated of its wording.
#[verifier::external_body]
fn read_url(text: &str) -> (r: Result<UrlParts, String>)
    ensures
        match r {
            Ok(p) => url_reading(text@) == Some(p@),
            Err(_) => url_reading(text@) is None,
        },
{
    let url = url::Url::parse(text).map_err(|e| e.to_string())?;
    Ok(UrlParts {
        scheme: url.scheme().to_string(),
        host: url.host_str().map(|h| h.to_string()),
        segments: url.path_segments().map(|s| s.map(|x| x.to_string()).collect()),
        query: url.query_pairs().map(|(k, v)| (k.into_owned(), v.into_owned())).collect(),
    })
}

/// The path segments, or none.
pub open spec fn segs_of(v: UrlView) -> Seq<Seq<char>> {
    match v.segments {
        Some(s) => s,
        None => seq![],
    }
}

/// The value of the last query pair named `k`.
pub open spec fn last_query(q: Seq<(Seq<char>, Seq<char>)>, k: Seq<char>) -> Option<Seq<char>>
    decreases q.len(),
{
    if q.len() == 0 {
        None
    } else if q.last().0 == k {
        Some(q.last().1)
    } else {
        last_query(q.drop_last(), k)
    }
}

/// Why a URL is not an `nxm` download link, if it is not.
pub open spec fn link_fault(v: UrlView) -> Option<Seq<char>> {
    let segs = segs_of(v);
    if v.scheme != "nxm"@ {
        Some("scheme is '"@ + v.scheme + "', not 'nxm'"@)
    } else if v.host is None {
        Some("missing game domain"@)
    } else if !(segs.len() == 4 && segs[0] == "mods"@ && segs[2] == "files"@) {
        Some("unexpected path: /"@ + slash_joined(segs))
    } else if parse_u64(segs[1]) is None {
        Some("bad mod_id: '"@ + segs[1] + "'"@)
    } else if parse_u64(segs[3]) is None {
        Some("bad file_id: '"@ + segs[3] + "'"@)
    } else {
        None
    }
}

/// A number from an optional query value (unparsable = none).
pub open spec fn query_number(v: Option<Seq<char>>) -> Option<u64> {
    match v {
        Some(t) => parse_u64(t),
        None => None,
    }
}

/// Whether `l` is the link the URL parts describe.
pub open spec fn link_matches(l: NxmLink, v: UrlView) -> bool {
    &&& l.domain@ == v.host.unwrap()
    &&& l.mod_id == parse_u64(segs_of(v)[1]).unwrap()
    &&& l.file_id == parse_u64(segs_of(v)[3]).unwrap()
    &&& opt_str(l.key) == last_query(v.query, "key"@)
    &&& l.expires == query_number(last_query(v.query, "expires"@))
    &&& l.user_id == query_number(last_query(v.query, "user_id"@))
}

fn last_pair_value<'a>(q: &'a [(String, String)], k: &str) -> (r: Option<&'a String>)
    ensures
        match last_query(q@.map_values(|p: (String, String)| (p.0@, p.1@)), k@) {
            Some(v) => r matches Some(s) && s@ == v,
            None => r is None,
        },
{
    let ghost qv = q@.map_values(|p: (String, String)| (p.0@, p.1@));
    let mut i: usize = q.len();
    assert(qv.take(qv.len() as int) =~= qv);
    while i > 0
        invariant
            qv == q@.map_values(|p: (String, String)| (p.0@, p.1@)),
            i <= q@.len(),
            last_query(qv, k@) == last_query(qv.take(i as int), k@),
        decreases i,
    {
        assert(qv.take(i as int).last() == qv[i - 1]);
        assert(qv.take(i as int).drop_last() =~= qv.take(i - 1));
        if str_eq(q[i - 1].0.as_str(), k) {
            return Some(&q[i - 1].1);
        }
        i = i - 1;
    }
    None
}

fn joined_path(segs: &[String]) -> (r: String)
    ensures
        r@ == slash_joined(views(segs@)),
{
    let mut out = String::new();
    let mut i: usize = 0;
    while i < segs.len()
        invariant
            i <= segs@.len(),
            out@ == slash_joined(views(segs@).take(i as int)),
        decreases segs@.len() - i,
    {
        assert(views(segs@).take(i + 1).drop_last() =~= views(segs@).take(i as int));
        assert(views(segs@)[i as int] == segs@[i as int]@);
        if i > 0 {
            push_char(&mut out, '/');
        }
        push_str(&mut out, segs[i].as_str());
        proof {
            if i == 0 {
                assert(out@ =~= views(segs@).take(1)[0]);
            }
        }
        i = i + 1;
    }
    assert(views(segs@).take(i as int) =~= views(segs@));
    out
}

/// The link that URL parts describe, or why they describe none.
pub fn link_from_url(p: &UrlParts) -> (r: Result<NxmLink, Error>)
    ensures
        match link_fault(p@) {
            Some(m) => r matches Err(Error::BadLink(e)) && e@ == m,
            None => r matches Ok(l) && link_matches(l, p@),
        },
{
    if !str_eq(p.scheme.as_str(), "nxm") {
        let mut m = owned("scheme is '");
        push_str(&mut m, p.scheme.as_str());
        push_str(&mut m, "', not 'nxm'");
        return Err(Error::BadLink(m));
    }
    let domain = match &p.host {
        Some(h) => owned(h.as_str()),
        None => return Err(Error::BadLink(owned("missing game domain"))),
    };
    let empty: Vec<String> = Vec::new();
    let segs: &Vec<String> = match &p.segments {
        Some(s) => s,
        None => &empty,
    };
    assert(views(segs@) == segs_of(p@));
    if !(segs.len() == 4 && str_eq(segs[0].as_str(), "mods") && str_eq(segs[2].as_str(), "files")) {
        let mut m = owned("unexpected path: /");
        let j = joined_path(segs.as_slice());
        push_str(&mut m, j.as_str());
        return Err(Error::BadLink(m));
    }
    assert(views(segs@)[1] == segs@[1]@ && views(segs@)[3] == segs@[3]@);
    let mod_id = match parse_u64_str(segs[1].as_str()) {
        Some(v) => v,
        None => {
            let mut m = owned("bad mod_id: '");
            push_str(&mut m, segs[1].as_str());
            push_str(&mut m, "'");
            return Err(Error::BadLink(m));
        },
    };
    let file_id = match parse_u64_str(segs[3].as_str()) {
        Some(v) => v,
        None => {
            let mut m = owned("bad file_id: '");
            push_str(&mut m, segs[3].as_str());
            push_str(&mut m, "'");
            return Err(Error::BadLink(m));
        },
    };
    let key = match last_pair_value(p.query.as_slice(), "key") {
        Some(v) => Some(owned(v.as_str())),
        None => None,
    };
    let expires = match last_pair_value(p.query.as_slice(), "expires") {
        Some(v) => parse_u64_str(v.as_str()),
        None => None,
    };
    let user_id = match last_pair_value(p.query.as_slice(), "user_id") {
        Some(v) => parse_u64_str(v.as_str()),
        None => None,
    };
    Ok(NxmLink { domain, mod_id, file_id, key, expires, user_id })
}

impl NxmLink {
    /// Parses an `nxm://` link (surrounding blanks ignored). Text that is
    /// not a URL is refused with the URL parser's message; a URL is judged
    /// by [`link_from_url`].
    pub fn parse(s: &str) -> (r: Result<NxmLink, Error>)
        ensures
            match url_reading(trim(s@)) {
                None => r matches Err(Error::BadLink(_)),
                Some(v) => match link_fault(v) {
                    Some(m) => r matches Err(Error::BadLink(e)) && e@ == m,
                    None => r matches Ok(l) && link_matches(l, v),
                },
            },
    {
        let t = trim_str(s);
        match read_url(t.as_str()) {
            Ok(parts) => link_from_url(&parts),
            Err(msg) => Err(Error::BadLink(msg)),
        }
    }
}

} // verus!
