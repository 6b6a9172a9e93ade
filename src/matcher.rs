use vstd::prelude::*;
use vstd::string::*;
use crate::index::AssetIndex;
use crate::paths::{hashed_filename, hashed_name, normalize_path, normalized, same_text, starts_with};
use crate::weburl::{parse_url_parts, replace_url_path, url_parts, url_with_path, BaseUrl};

verus! {

/// A path rewritten to its hashed name when the index knows it, and kept
/// as it is otherwise.
pub open spec fn updated(p: Seq<char>, index: Map<Seq<char>, Seq<char>>) -> Seq<char> {
    if index.contains_key(p) {
        hashed_name(p, index[p])
    } else {
        p
    }
}

/// Whether `src` is an absolute `http://` or `https://` link.
pub open spec fn is_http_link(src: Seq<char>) -> bool {
    "http://"@.is_prefix_of(src) || "https://"@.is_prefix_of(src)
}

/// Whether a parsed link with this host and path points at the assets root
/// of the site whose host is `base_host`.
pub open spec fn is_site_asset_link(
    host: Option<Seq<char>>,
    path: Seq<char>,
    base_host: Option<Seq<char>>,
    root: Seq<char>,
) -> bool {
    host is Some && base_host == host && root.is_prefix_of(normalized(path))
}

/// Whether `src` is an absolute link on the site's own host whose path lies
/// under the assets root.
pub open spec fn is_site_asset_url(
    src: Seq<char>,
    base_host: Option<Seq<char>>,
    root: Seq<char>,
) -> bool {
    &&& is_http_link(src)
    &&& url_parts(src) is Some
    &&& is_site_asset_link((url_parts(src)->0).0, (url_parts(src)->0).1, base_host, root)
}

/// The separator that `src` starts with, if any.
pub open spec fn leading_separator(src: Seq<char>) -> Seq<char> {
    src.subrange(0, src.len() - normalized(src).len())
}

/// A relative (or root-relative) reference rewritten to the hashed name of
/// the asset it names; its leading separator is kept.
pub open spec fn relative_rewrite(
    src: Seq<char>,
    root: Seq<char>,
    index: Map<Seq<char>, Seq<char>>,
) -> Seq<char> {
    let n = normalized(src);
    if root.is_prefix_of(n) && index.contains_key(n) {
        leading_separator(src) + hashed_name(n, index[n])
    } else {
        src
    }
}

/// What an attribute value becomes once references to hashed assets are
/// rewritten.
pub open spec fn rewritten_reference(
    src: Seq<char>,
    base_host: Option<Seq<char>>,
    root: Seq<char>,
    index: Map<Seq<char>, Seq<char>>,
) -> Seq<char> {
    if is_http_link(src) && url_parts(src) is None {
        src
    } else if is_site_asset_url(src, base_host, root) {
        let p = normalized((url_parts(src)->0).1);
        if index.contains_key(p) {
            url_with_path(src, "/"@ + hashed_name(p, index[p]))
        } else {
            src
        }
    } else {
        relative_rewrite(src, root, index)
    }
}

/// The decision taken for an absolute link once its host and path are known.
pub enum LinkRewrite {
    /// The link names an indexed asset: its path becomes this one.
    NewPath(String),
    /// The link points into the assets root but names no indexed asset.
    Unchanged,
    /// The link is not an asset link of this site.
    NotSiteAsset,
}

/// The asset path rewritten to its hashed name when the index holds it,
/// and returned unchanged otherwise.
pub fn update_asset(path: &str, index: &AssetIndex) -> (r: String)
    requires
        index.wf(),
    ensures
        r@ == updated(path@, index.view()),
{
    match index.get(path) {
        Some(h) => hashed_filename(path, h.as_str()),
        None => String::from_str(path),
    }
}

/// Decides what becomes of an absolute link with the given host and path.
pub fn plan_absolute_link(
    host: Option<&str>,
    path: &str,
    base: &BaseUrl,
    root: &str,
    index: &AssetIndex,
) -> (r: LinkRewrite)
    requires
        index.wf(),
    ensures
        ({
            let hv = match host {
                Some(h) => Some(h@),
                None => None,
            };
            let p = normalized(path@);
            match r {
                LinkRewrite::NewPath(np) => is_site_asset_link(hv, path@, base.host_view(), root@)
                    && index.view().contains_key(p) && np@ == "/"@ + hashed_name(p, index.view()[p]),
                LinkRewrite::Unchanged => is_site_asset_link(hv, path@, base.host_view(), root@)
                    && !index.view().contains_key(p),
                LinkRewrite::NotSiteAsset => !is_site_asset_link(hv, path@, base.host_view(), root@),
            }
        }),
{
    let same_host = match (host, base.host()) {
        (Some(h), Some(b)) => same_text(h, b),
        _ => false,
    };
    let p = normalize_path(path);
    if !same_host || !starts_with(p, root) {
        return LinkRewrite::NotSiteAsset;
    }
    match index.get(p) {
        Some(h) => LinkRewrite::NewPath(String::from_str("/").concat(hashed_filename(p, h.as_str()).as_str())),
        None => LinkRewrite::Unchanged,
    }
}

/// Rewrites a relative or root-relative reference to an indexed asset under
/// the assets root; any other string is returned unchanged.
pub fn rewrite_relative(src: &str, root: &str, index: &AssetIndex) -> (r: String)
    requires
        index.wf(),
    ensures
        r@ == relative_rewrite(src@, root@, index.view()),
{
    let n = normalize_path(src);
    if starts_with(n, root) {
        match index.get(n) {
            Some(h) => {
                let lead = src.substring_char(0, src.unicode_len() - n.unicode_len());
                return String::from_str(lead).concat(hashed_filename(n, h.as_str()).as_str());
            },
            None => {},
        }
    }
    String::from_str(src)
}

/// The elements whose attributes may refer to assets, as pairs of a CSS
/// selector and the attribute to rewrite: scripts, stylesheet links and
/// images.
pub fn asset_attributes() -> (r: Vec<(&'static str, &'static str)>)
    ensures
        r@.len() == 3,
        r@[0].0@ == "script[src]"@ && r@[0].1@ == "src"@,
        r@[1].0@ == "link[rel='stylesheet'][href]"@ && r@[1].1@ == "href"@,
        r@[2].0@ == "img[src]"@ && r@[2].1@ == "src"@,
{
    vec![("script[src]", "src"), ("link[rel='stylesheet'][href]", "href"), ("img[src]", "src")]
}

/// Rewrites an attribute value that refers to a hashed asset, either by a
/// path under the assets root or by an absolute URL on the site's own host.
/// Anything else, a malformed absolute URL included, is returned unchanged.
pub fn match_asset(src: &str, base_url: &BaseUrl, assets_path: &str, assets: &AssetIndex) -> (r:
    String)
    requires
        assets.wf(),
    ensures
        r@ == rewritten_reference(src@, base_url.host_view(), assets_path@, assets.view()),
{
    if starts_with(src, "http://") || starts_with(src, "https://") {
        match parse_url_parts(src) {
            None => return String::from_str(src),
            Some((host, path)) => {
                let h = match &host {
                    Some(h) => Some(h.as_str()),
                    None => None,
                };
                match plan_absolute_link(h, path.as_str(), base_url, assets_path, assets) {
                    LinkRewrite::NewPath(np) => return replace_url_path(src, np.as_str()),
                    LinkRewrite::Unchanged => return String::from_str(src),
                    LinkRewrite::NotSiteAsset => {},
                }
            },
        }
    }
    rewrite_relative(src, assets_path, assets)
}

/// A string that neither lies under the assets root once normalized nor is
/// an absolute link on the site's host into the assets root comes back
/// unchanged.
pub proof fn lemma_non_asset_passthrough(
    src: Seq<char>,
    base_host: Option<Seq<char>>,
    root: Seq<char>,
    index: Map<Seq<char>, Seq<char>>,
)
    requires
        !root.is_prefix_of(normalized(src)),
        !is_site_asset_url(src, base_host, root),
    ensures
        rewritten_reference(src, base_host, root, index) == src,
{
}

/// The hashed name that an indexed asset under the assets root is renamed
/// to is the one that references to it are rewritten to, whether they name
/// it by its path, by its path with a leading separator, or by an absolute
/// URL on the site's own host.
pub proof fn lemma_rename_agrees_with_rewrite(
    k: Seq<char>,
    base_host: Option<Seq<char>>,
    root: Seq<char>,
    index: Map<Seq<char>, Seq<char>>,
    link: Seq<char>,
)
    requires
        index.contains_key(k),
        root.is_prefix_of(k),
        !(k.len() > 0 && k[0] == '/'),
        !is_http_link(k),
    ensures
        rewritten_reference(k, base_host, root, index) == hashed_name(k, index[k]),
        rewritten_reference("/"@ + k, base_host, root, index) == "/"@ + hashed_name(k, index[k]),
        is_http_link(link) && base_host is Some && url_parts(link) == Some((base_host, "/"@ + k))
            ==> rewritten_reference(link, base_host, root, index) == url_with_path(
            link,
            "/"@ + hashed_name(k, index[k]),
        ),
{
    reveal_strlit("/");
    reveal_strlit("http://");
    reveal_strlit("https://");
    let s = "/"@ + k;
    assert(normalized(s) =~= k);
    assert(leading_separator(s) =~= "/"@);
    assert(leading_separator(k) =~= Seq::<char>::empty());
    assert(!"http://"@.is_prefix_of(s)) by {
        assert(s[0] != "http://"@[0]);
    }
    assert(!"https://"@.is_prefix_of(s)) by {
        assert(s[0] != "https://"@[0]);
    }
}

} // verus!
