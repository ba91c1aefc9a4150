//! The Nexus Mods REST API as the library addresses it: the record types
//! its answers hold, the request URLs, and the checks around them. The
//! HTTP exchange, sent with the `apikey` header, is the caller's.

use vstd::prelude::*;
use crate::error::Error;
use crate::nxm::NxmLink;
use crate::platform::ListSort;
use crate::text::{decimal, decimal_string, owned, push_str, trim, trim_str};

verus! {

/// The Nexus Mods REST API.
pub const API_BASE: &'static str = "https://api.nexusmods.com/v1";

/// The account an API key belongs to.
#[derive(Debug, Clone)]
pub struct User {
    pub user_id: u64,
    pub name: String,
    pub is_premium: bool,
}

/// The mod lists the API offers.
#[derive(Debug, Clone, Copy, PartialEq, Eq, Structural)]
pub enum ModList {
    Trending,
    LatestAdded,
    LatestUpdated,
}

/// The path segment of a list.
pub open spec fn list_path(k: ModList) -> Seq<char> {
    match k {
        ModList::Trending => "trending"@,
        ModList::LatestAdded => "latest_added"@,
        ModList::LatestUpdated => "latest_updated"@,
    }
}

impl ModList {
    /// The list's path segment.
    pub fn path(self) -> (r: &'static str)
        ensures
            r@ == list_path(self),
    {
        match self {
            ModList::Trending => "trending",
            ModList::LatestAdded => "latest_added",
            ModList::LatestUpdated => "latest_updated",
        }
    }
}

/// A mod as the Nexus API describes it.
#[derive(Debug, Clone)]
pub struct ModInfo {
    pub mod_id: u64,
    pub name: String,
    pub summary: String,
    pub version: String,
    pub author: String,
    pub picture_url: Option<String>,
}

/// A file of a Nexus mod.
#[derive(Debug, Clone)]
pub struct ModFile {
    pub file_id: u64,
    pub name: String,
    pub version: String,
    pub category_name: Option<String>,
    pub file_name: String,
    pub size_kb: u64,
}

/// A CDN link a file can be downloaded from.
#[derive(Debug, Clone)]
pub struct DownloadLink {
    pub name: String,
    pub short_name: String,
    pub uri: String,
}

/// A client needs a non-blank API key.
pub fn check_api_key(api_key: &str) -> (r: Result<(), Error>)
    ensures
        trim(api_key@).len() == 0 ==> r matches Err(Error::NoApiKey),
        trim(api_key@).len() > 0 ==> r is Ok,
{
    let t = trim_str(api_key);
    if t.as_str().is_empty() {
        return Err(Error::NoApiKey);
    }
    Ok(())
}

/// The key check URL.
pub fn validate_url() -> (r: String)
    ensures
        r@ == API_BASE@ + "/users/validate.json"@,
{
    let mut u = owned(API_BASE);
    push_str(&mut u, "/users/validate.json");
    u
}

/// `<base>/games/<domain>/mods/`.
pub open spec fn mods_base(domain: Seq<char>) -> Seq<char> {
    API_BASE@ + "/games/"@ + domain + "/mods/"@
}

fn mods_base_string(domain: &str) -> (r: String)
    ensures
        r@ == mods_base(domain@),
{
    let mut u = owned(API_BASE);
    push_str(&mut u, "/games/");
    push_str(&mut u, domain);
    push_str(&mut u, "/mods/");
    u
}

/// A mod's info URL.
pub fn mod_info_url(domain: &str, mod_id: u64) -> (r: String)
    ensures
        r@ == mods_base(domain@) + decimal(mod_id as nat) + ".json"@,
{
    let mut u = mods_base_string(domain);
    crate::text::push_decimal(&mut u, mod_id);
    push_str(&mut u, ".json");
    u
}

/// A mod list's URL.
pub fn mod_list_url(domain: &str, kind: ModList) -> (r: String)
    ensures
        r@ == mods_base(domain@) + list_path(kind) + ".json"@,
{
    let mut u = mods_base_string(domain);
    push_str(&mut u, kind.path());
    push_str(&mut u, ".json");
    u
}

/// A mod's file list URL.
pub fn files_url(domain: &str, mod_id: u64) -> (r: String)
    ensures
        r@ == mods_base(domain@) + decimal(mod_id as nat) + "/files.json"@,
{
    let mut u = mods_base_string(domain);
    crate::text::push_decimal(&mut u, mod_id);
    push_str(&mut u, "/files.json");
    u
}

/// The download-link URL of a file; a link carrying both a key and an
/// expiry (a free account's) passes them on.
pub open spec fn download_links_text(domain: Seq<char>, mod_id: u64, file_id: u64, nxm: Option<NxmLink>) -> Seq<char> {
    let base = mods_base(domain) + decimal(mod_id as nat) + "/files/"@ + decimal(file_id as nat)
        + "/download_link.json"@;
    match nxm {
        Some(l) => match (l.key, l.expires) {
            (Some(key), Some(exp)) => base + "?key="@ + key@ + "&expires="@ + decimal(exp as nat),
            _ => base,
        },
        None => base,
    }
}

/// The download-link URL of a file; a free account's `nxm://` link passes on its key and expiry.
pub fn download_links_url(domain: &str, mod_id: u64, file_id: u64, nxm: Option<&NxmLink>) -> (r: String)
    ensures
        r@ == download_links_text(domain@, mod_id, file_id, match nxm {
            Some(l) => Some(*l),
            None => None,
        }),
{
    let mut u = mods_base_string(domain);
    crate::text::push_decimal(&mut u, mod_id);
    push_str(&mut u, "/files/");
    crate::text::push_decimal(&mut u, file_id);
    push_str(&mut u, "/download_link.json");
    if let Some(l) = nxm {
        if let (Some(key), Some(exp)) = (&l.key, l.expires) {
            push_str(&mut u, "?key=");
            push_str(&mut u, key.as_str());
            push_str(&mut u, "&expires=");
            crate::text::push_decimal(&mut u, exp);
        }
    }
    u
}

/// The link an `nxm://` download resolves to: the first one offered.
pub fn first_link(links: Vec<DownloadLink>) -> (r: Result<DownloadLink, Error>)
    ensures
        links@.len() > 0 ==> r == Ok::<DownloadLink, Error>(links@[0]),
        links@.len() == 0 ==> (r matches Err(Error::Other(m)) && m@ == "no download links returned"@),
{
    let mut links = links;
    if links.len() == 0 {
        return Err(Error::Other(owned("no download links returned")));
    }
    Ok(links.remove(0))
}

/// The Nexus list a browse sort stands for.
pub fn sort_to_modlist(sort: ListSort) -> (r: ModList)
    ensures
        r == match sort {
            ListSort::Top => ModList::Trending,
            ListSort::Newest => ModList::LatestAdded,
            ListSort::Updated => ModList::LatestUpdated,
        },
{
    match sort {
        ListSort::Top => ModList::Trending,
        ListSort::Newest => ModList::LatestAdded,
        ListSort::Updated => ModList::LatestUpdated,
    }
}

} // verus!
