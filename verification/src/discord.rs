//! Where the URLs sit in Discord data: message embeds, message components,
//! attachments, avatars, and the guild data of the gateway's `READY` event.
//!
//! Each `*_urls` spec function gives the URLs of one JSON value in the order in
//! which they are gathered, or `None` when the value lacks a part that must be
//! there (a key that is looked up unconditionally, or a value of the wrong kind).

use vstd::prelude::*;
use crate::collect::{cat, collect_all, collect_each, lemma_collect_concat, lemma_collect_without_quiet, lemma_without_all, opt_strs, without};
use crate::collect::{all_in, lemma_all_in_trans, lemma_cat_parts, lemma_collect_parts};
use crate::json::{Json, JsonModel};
use crate::pattern::{regex_matches, Pattern};
use crate::text::{str_equal, strs};

verus! {

/// The bit pattern of the binary64 number 200, the HTTP status of a successful request.
pub const HTTP_OK_BITS: u64 = 0x4069_0000_0000_0000;

/// The bit pattern of the binary64 number 9, the gateway API version that is understood.
pub const API_VERSION_BITS: u64 = 0x4022_0000_0000_0000;

/// `j[key]` as a string.
pub open spec fn str_field(j: JsonModel, key: Seq<char>) -> Option<Seq<char>> {
    match j.field(key) {
        Some(v) => v.text(),
        None => None,
    }
}

/// `[j[key]]`, which must be a string.
pub open spec fn one_url(j: JsonModel, key: Seq<char>) -> Option<Seq<Seq<char>>> {
    match str_field(j, key) {
        Some(s) => Some(seq![s]),
        None => None,
    }
}

/// `[j[key]]` when `j` has `key` (then it must be a string); nothing otherwise.
pub open spec fn url_if_present(j: JsonModel, key: Seq<char>) -> Option<Seq<Seq<char>>> {
    if j.has_field(key) {
        one_url(j, key)
    } else {
        Some(Seq::empty())
    }
}

/// `[j[key]]` when `j` has `key` and it is not `null`; nothing otherwise.
pub open spec fn url_if_set(j: JsonModel, key: Seq<char>) -> Option<Seq<Seq<char>>> {
    match j.field(key) {
        None => Some(Seq::empty()),
        Some(JsonModel::Null) => Some(Seq::empty()),
        Some(_) => one_url(j, key),
    }
}

/// `[j[outer][inner]]`, which must be a string.
pub open spec fn nested_url(j: JsonModel, outer: Seq<char>, inner: Seq<char>) -> Option<Seq<Seq<char>>> {
    match j.field(outer) {
        Some(o) => one_url(o, inner),
        None => None,
    }
}

/// `[j[outer][inner]]` when `j` has `gate`; nothing otherwise.
pub open spec fn nested_url_if(j: JsonModel, gate: Seq<char>, outer: Seq<char>, inner: Seq<char>) -> Option<Seq<Seq<char>>> {
    if j.has_field(gate) {
        nested_url(j, outer, inner)
    } else {
        Some(Seq::empty())
    }
}

/// The links in the text `j[key]`, which must be a string.
pub open spec fn text_links(j: JsonModel, key: Seq<char>, pattern: Seq<char>) -> Option<Seq<Seq<char>>> {
    match str_field(j, key) {
        Some(t) => Some(regex_matches(pattern, t)),
        None => None,
    }
}

/// What `f` gives for each item of the array `j[key]`, which must be an array.
pub open spec fn list_urls(j: JsonModel, key: Seq<char>, f: spec_fn(JsonModel) -> Option<Seq<Seq<char>>>) -> Option<Seq<Seq<char>>> {
    match j.field(key) {
        Some(JsonModel::Array(items)) => collect_all(items, f),
        _ => None,
    }
}

fn str_field_of<'a>(j: &'a Json, key: &str) -> (r: Option<&'a String>)
    ensures
        r matches Some(s) ==> str_field(j.model(), key@) == Some(s@),
        r is None ==> str_field(j.model(), key@) is None,
{
    match j.get(key) {
        Some(v) => v.as_string(),
        None => None,
    }
}

fn single(s: String) -> (r: Vec<String>)
    ensures
        strs(r@) == seq![s@],
{
    let mut v: Vec<String> = Vec::new();
    v.push(s);
    assert(strs(v@) =~= seq![s@]);
    v
}

fn nothing() -> (r: Vec<String>)
    ensures
        strs(r@) == Seq::<Seq<char>>::empty(),
{
    let v: Vec<String> = Vec::new();
    assert(strs(v@) =~= Seq::<Seq<char>>::empty());
    v
}

/// Both lists, one after the other, when neither is missing.
fn join(a: Option<Vec<String>>, b: Option<Vec<String>>) -> (r: Option<Vec<String>>)
    ensures
        opt_strs(r) == cat(opt_strs(a), opt_strs(b)),
{
    match (a, b) {
        (Some(mut x), Some(mut y)) => {
            let ghost xs = strs(x@);
            let ghost ys = strs(y@);
            x.append(&mut y);
            assert(strs(x@) =~= xs + ys);
            Some(x)
        },
        _ => None,
    }
}

fn one_url_of(j: &Json, key: &str) -> (r: Option<Vec<String>>)
    ensures
        opt_strs(r) == one_url(j.model(), key@),
{
    match str_field_of(j, key) {
        Some(s) => Some(single(s.clone())),
        None => None,
    }
}

fn url_if_present_of(j: &Json, key: &str) -> (r: Option<Vec<String>>)
    ensures
        opt_strs(r) == url_if_present(j.model(), key@),
{
    if j.contains_key(key) {
        one_url_of(j, key)
    } else {
        Some(nothing())
    }
}

fn url_if_set_of(j: &Json, key: &str) -> (r: Option<Vec<String>>)
    ensures
        opt_strs(r) == url_if_set(j.model(), key@),
{
    match j.get(key) {
        None => Some(nothing()),
        Some(v) => {
            if v.is_null() {
                Some(nothing())
            } else {
                one_url_of(j, key)
            }
        },
    }
}

fn nested_url_of(j: &Json, outer: &str, inner: &str) -> (r: Option<Vec<String>>)
    ensures
        opt_strs(r) == nested_url(j.model(), outer@, inner@),
{
    match j.get(outer) {
        Some(o) => one_url_of(o, inner),
        None => None,
    }
}

fn nested_url_if_of(j: &Json, gate: &str, outer: &str, inner: &str) -> (r: Option<Vec<String>>)
    ensures
        opt_strs(r) == nested_url_if(j.model(), gate@, outer@, inner@),
{
    if j.contains_key(gate) {
        nested_url_of(j, outer, inner)
    } else {
        Some(nothing())
    }
}

fn text_links_of(j: &Json, key: &str, pattern: &Pattern) -> (r: Option<Vec<String>>)
    ensures
        opt_strs(r) == text_links(j.model(), key@, pattern@),
{
    match str_field_of(j, key) {
        Some(t) => Some(pattern.find_all(t.as_str())),
        None => None,
    }
}

fn list_urls_of<F: Fn(&Json) -> Option<Vec<String>>>(
    j: &Json,
    key: &str,
    f: F,
    Ghost(spec_f): Ghost<spec_fn(JsonModel) -> Option<Seq<Seq<char>>>>,
) -> (r: Option<Vec<String>>)
    requires
        forall|x: &Json| #[trigger] f.requires((x,)),
        forall|x: &Json, out: Option<Vec<String>>| #[trigger] f.ensures((x,), out) ==> opt_strs(out) == spec_f(x.model()),
    ensures
        opt_strs(r) == list_urls(j.model(), key@, spec_f),
{
    match j.get(key) {
        Some(v) => match v.as_array() {
            Some(items) => collect_each(items, f, Ghost(spec_f)),
            None => None,
        },
        None => None,
    }
}


/// The text of an embed that is searched for links: its title, description and
/// footer text, joined by newlines as far as they are there.
pub open spec fn embed_description(e: JsonModel) -> Option<Seq<char>> {
    let description = match e.field("description"@) {
        None => Some(Seq::empty()),
        Some(v) => v.text(),
    };
    let titled = match e.field("title"@) {
        None => description,
        Some(t) => match (t.text(), description) {
            (Some(title), Some(d)) => Some(title + seq!['\n'] + d),
            _ => None,
        },
    };
    match e.field("footer"@) {
        None => titled,
        Some(f) => if f is Object {
            match (titled, str_field(f, "text"@)) {
                (Some(d), Some(text)) => Some(d + seq!['\n'] + text),
                _ => None,
            }
        } else {
            None
        },
    }
}

/// The video link of an embed that has a video: `video.url` when the embed itself has
/// a `url`, else `video.proxy_url` when the embed itself has a `proxy_url`; nothing
/// otherwise.
pub open spec fn embed_video_url(e: JsonModel) -> Option<Seq<Seq<char>>> {
    if e.has_field("video"@) {
        if e.has_field("url"@) {
            nested_url(e, "video"@, "url"@)
        } else if e.has_field("proxy_url"@) {
            nested_url(e, "video"@, "proxy_url"@)
        } else {
            Some(Seq::empty())
        }
    } else {
        Some(Seq::empty())
    }
}

/// The links of an embed's author: its `url` unless `null`, its `icon_url`, its `proxy_icon_url`.
pub open spec fn embed_author_urls(e: JsonModel) -> Option<Seq<Seq<char>>> {
    match e.field("author"@) {
        None => Some(Seq::empty()),
        Some(a) => if a is Object {
            cat(
                cat(url_if_set(a, "url"@), url_if_present(a, "icon_url"@)),
                url_if_present(a, "proxy_icon_url"@),
            )
        } else {
            None
        },
    }
}

/// The link of an embed's provider.
pub open spec fn embed_provider_urls(e: JsonModel) -> Option<Seq<Seq<char>>> {
    match e.field("provider"@) {
        None => Some(Seq::empty()),
        Some(p) => if p is Object {
            url_if_present(p, "url"@)
        } else {
            None
        },
    }
}

/// The icon link of an embed's footer.
pub open spec fn embed_footer_urls(e: JsonModel) -> Option<Seq<Seq<char>>> {
    match e.field("footer"@) {
        None => Some(Seq::empty()),
        Some(f) => url_if_present(f, "icon_url"@),
    }
}

/// The links in an embed's text.
pub open spec fn embed_text_urls(e: JsonModel, pattern: Seq<char>) -> Option<Seq<Seq<char>>> {
    match embed_description(e) {
        Some(d) => Some(regex_matches(pattern, d)),
        None => None,
    }
}

/// The URLs of one embed, in the order: footer icon, thumbnail, video, author,
/// provider, links in its text, image, and its own `url` unless `null`.
pub open spec fn embed_urls(e: JsonModel, pattern: Seq<char>) -> Option<Seq<Seq<char>>> {
    if e is Object {
        cat(
            cat(
                cat(
                    cat(
                        cat(
                            cat(
                                cat(
                                    embed_footer_urls(e),
                                    nested_url_if(e, "thumbnail"@, "thumbnail"@, "url"@),
                                ),
                                embed_video_url(e),
                            ),
                            embed_author_urls(e),
                        ),
                        embed_provider_urls(e),
                    ),
                    embed_text_urls(e, pattern),
                ),
                nested_url_if(e, "image"@, "image"@, "url"@),
            ),
            url_if_set(e, "url"@),
        )
    } else {
        None
    }
}

/// The URLs of the embeds of `j` (its `embeds` array), one embed after the other.
pub open spec fn embed_list_urls(j: JsonModel, pattern: Seq<char>) -> Option<Seq<Seq<char>>> {
    list_urls(j, "embeds"@, |e: JsonModel| embed_urls(e, pattern))
}

/// The text of an embed that is searched for links, as `embed_description` says.
pub fn embed_description_of(e: &Json) -> (r: Option<String>)
    ensures
        r matches Some(d) ==> embed_description(e.model()) == Some(d@),
        r is None ==> embed_description(e.model()) is None,
{
    proof {
        reveal_strlit("\n");
    }
    let mut d = String::new();
    match e.get("description") {
        Some(v) => match v.as_string() {
            Some(s) => {
                d = s.clone();
            },
            None => {
                return None;
            },
        },
        None => {},
    }
    match e.get("title") {
        Some(v) => match v.as_string() {
            Some(t) => {
                let mut titled = t.clone();
                titled.append("\n");
                titled.append(d.as_str());
                d = titled;
            },
            None => {
                return None;
            },
        },
        None => {},
    }
    match e.get("footer") {
        Some(f) => {
            if !f.is_object() {
                return None;
            }
            match str_field_of(f, "text") {
                Some(text) => {
                    d.append("\n");
                    d.append(text.as_str());
                },
                None => {
                    return None;
                },
            }
        },
        None => {},
    }
    Some(d)
}

fn embed_video_url_of(e: &Json) -> (r: Option<Vec<String>>)
    ensures
        opt_strs(r) == embed_video_url(e.model()),
{
    if e.contains_key("video") {
        if e.contains_key("url") {
            nested_url_of(e, "video", "url")
        } else if e.contains_key("proxy_url") {
            nested_url_of(e, "video", "proxy_url")
        } else {
            Some(nothing())
        }
    } else {
        Some(nothing())
    }
}

fn embed_author_urls_of(e: &Json) -> (r: Option<Vec<String>>)
    ensures
        opt_strs(r) == embed_author_urls(e.model()),
{
    match e.get("author") {
        None => Some(nothing()),
        Some(a) => {
            if a.is_object() {
                join(
                    join(url_if_set_of(a, "url"), url_if_present_of(a, "icon_url")),
                    url_if_present_of(a, "proxy_icon_url"),
                )
            } else {
                None
            }
        },
    }
}

fn embed_provider_urls_of(e: &Json) -> (r: Option<Vec<String>>)
    ensures
        opt_strs(r) == embed_provider_urls(e.model()),
{
    match e.get("provider") {
        None => Some(nothing()),
        Some(p) => {
            if p.is_object() {
                url_if_present_of(p, "url")
            } else {
                None
            }
        },
    }
}

fn embed_footer_urls_of(e: &Json) -> (r: Option<Vec<String>>)
    ensures
        opt_strs(r) == embed_footer_urls(e.model()),
{
    match e.get("footer") {
        None => Some(nothing()),
        Some(f) => url_if_present_of(f, "icon_url"),
    }
}

fn embed_text_urls_of(e: &Json, pattern: &Pattern) -> (r: Option<Vec<String>>)
    ensures
        opt_strs(r) == embed_text_urls(e.model(), pattern@),
{
    match embed_description_of(e) {
        Some(d) => Some(pattern.find_all(d.as_str())),
        None => None,
    }
}

/// The URLs of one embed, as `embed_urls` says.
pub fn embed_urls_of(e: &Json, pattern: &Pattern) -> (r: Option<Vec<String>>)
    ensures
        opt_strs(r) == embed_urls(e.model(), pattern@),
{
    if !e.is_object() {
        return None;
    }
    let a = join(embed_footer_urls_of(e), nested_url_if_of(e, "thumbnail", "thumbnail", "url"));
    let b = join(a, embed_video_url_of(e));
    let c = join(b, embed_author_urls_of(e));
    let d = join(c, embed_provider_urls_of(e));
    let f = join(d, embed_text_urls_of(e, pattern));
    let g = join(f, nested_url_if_of(e, "image", "image", "url"));
    join(g, url_if_set_of(e, "url"))
}

/// The URLs of the embeds of `json`: the URLs of each item of its `embeds` array,
/// or `None` where that array or one of its embeds lacks a part that must be there.
pub fn try_get_embed_urls(json: &Json, pattern: &Pattern) -> (r: Option<Vec<String>>)
    ensures
        opt_strs(r) == embed_list_urls(json.model(), pattern@),
{
    list_urls_of(
        json,
        "embeds",
        (|e: &Json| -> (out: Option<Vec<String>>)
            ensures
                opt_strs(out) == embed_urls(e.model(), pattern@),
            { embed_urls_of(e, pattern) }),
        Ghost(|e: JsonModel| embed_urls(e, pattern@)),
    )
}

/// The URLs of the embeds of `json`, for a value whose embeds hold every part that
/// must be there.
pub fn get_embed_urls(json: &Json, pattern: &Pattern) -> (r: Vec<String>)
    requires
        embed_list_urls(json.model(), pattern@) is Some,
    ensures
        embed_list_urls(json.model(), pattern@) == Some(strs(r@)),
{
    match try_get_embed_urls(json, pattern) {
        Some(urls) => urls,
        None => Vec::new(),
    }
}

/// The link of a component: its `url` when it has one.
pub open spec fn component_url(c: JsonModel) -> Option<Seq<Seq<char>>> {
    if c is Object {
        url_if_present(c, "url"@)
    } else {
        None
    }
}

/// The links of the components of one row.
pub open spec fn row_component_urls(row: JsonModel) -> Option<Seq<Seq<char>>> {
    list_urls(row, "components"@, |c: JsonModel| component_url(c))
}

/// The links of the components of a message: its rows of components, row after row.
pub open spec fn component_urls(m: JsonModel) -> Option<Seq<Seq<char>>> {
    list_urls(m, "components"@, |row: JsonModel| row_component_urls(row))
}

fn component_url_of(c: &Json) -> (r: Option<Vec<String>>)
    ensures
        opt_strs(r) == component_url(c.model()),
{
    if c.is_object() {
        url_if_present_of(c, "url")
    } else {
        None
    }
}

fn row_component_urls_of(row: &Json) -> (r: Option<Vec<String>>)
    ensures
        opt_strs(r) == row_component_urls(row.model()),
{
    list_urls_of(
        row,
        "components",
        (|c: &Json| -> (out: Option<Vec<String>>)
            ensures
                opt_strs(out) == component_url(c.model()),
            { component_url_of(c) }),
        Ghost(|c: JsonModel| component_url(c)),
    )
}

/// The links of the components of a message, as `component_urls` says; `None` where
/// its `components` or one of them lacks a part that must be there.
pub fn try_get_component_urls(json: &Json) -> (r: Option<Vec<String>>)
    ensures
        opt_strs(r) == component_urls(json.model()),
{
    list_urls_of(
        json,
        "components",
        (|row: &Json| -> (out: Option<Vec<String>>)
            ensures
                opt_strs(out) == row_component_urls(row.model()),
            { row_component_urls_of(row) }),
        Ghost(|row: JsonModel| row_component_urls(row)),
    )
}

/// The links of the components of a message, for a message whose components hold
/// every part that must be there.
pub fn get_component_urls(json: &Json) -> (r: Vec<String>)
    requires
        component_urls(json.model()) is Some,
    ensures
        component_urls(json.model()) == Some(strs(r@)),
{
    match try_get_component_urls(json) {
        Some(urls) => urls,
        None => Vec::new(),
    }
}


/// The icon of a guild, in the given format suffix.
pub open spec fn guild_icon_link(guild: Seq<char>, icon: Seq<char>, suffix: Seq<char>) -> Seq<char> {
    "https://cdn.discordapp.com/icons/"@ + guild + "/"@ + icon + suffix
}

/// The icon of a role.
pub open spec fn role_icon_link(role: Seq<char>, icon: Seq<char>) -> Seq<char> {
    "https://cdn.discordapp.com/role-icons/"@ + role + "/"@ + icon + ".webp?size=4096&quality=lossless"@
}

/// The image of a custom emoji: a GIF when it is animated, a WebP otherwise.
pub open spec fn emoji_link(id: Seq<char>, animated: bool) -> Seq<char> {
    if animated {
        "https://cdn.discordapp.com/emojis/"@ + id + ".gif?size=4096&quality=lossless"@
    } else {
        "https://cdn.discordapp.com/emojis/"@ + id + ".webp?size=4096&quality=lossless"@
    }
}

/// The avatar of a user, in the highest quality offered.
pub open spec fn avatar_link(user: Seq<char>, avatar: Seq<char>) -> Seq<char> {
    "https://cdn.discordapp.com/avatars/"@ + user + "/"@ + avatar + ".webp?size=4096"@
}

fn guild_icon_link_of(guild: &str, icon: &str, suffix: &str) -> (r: String)
    ensures
        r@ == guild_icon_link(guild@, icon@, suffix@),
{
    let mut s = "https://cdn.discordapp.com/icons/".to_owned();
    s.append(guild);
    s.append("/");
    s.append(icon);
    s.append(suffix);
    s
}

fn role_icon_link_of(role: &str, icon: &str) -> (r: String)
    ensures
        r@ == role_icon_link(role@, icon@),
{
    let mut s = "https://cdn.discordapp.com/role-icons/".to_owned();
    s.append(role);
    s.append("/");
    s.append(icon);
    s.append(".webp?size=4096&quality=lossless");
    s
}

fn emoji_link_of(id: &str, animated: bool) -> (r: String)
    ensures
        r@ == emoji_link(id@, animated),
{
    let mut s = "https://cdn.discordapp.com/emojis/".to_owned();
    s.append(id);
    if animated {
        s.append(".gif?size=4096&quality=lossless");
    } else {
        s.append(".webp?size=4096&quality=lossless");
    }
    s
}

/// The avatar of a user, as `avatar_link` says.
pub fn avatar_link_of(user: &str, avatar: &str) -> (r: String)
    ensures
        r@ == avatar_link(user@, avatar@),
{
    let mut s = "https://cdn.discordapp.com/avatars/".to_owned();
    s.append(user);
    s.append("/");
    s.append(avatar);
    s.append(".webp?size=4096");
    s
}

/// The icon of a role, when it has one that is not `null`.
pub open spec fn role_urls(r: JsonModel) -> Option<Seq<Seq<char>>> {
    if r is Object {
        match r.field("icon"@) {
            None => Some(Seq::empty()),
            Some(JsonModel::Null) => Some(Seq::empty()),
            Some(_) => match (str_field(r, "id"@), str_field(r, "icon"@)) {
                (Some(id), Some(icon)) => Some(seq![role_icon_link(id, icon)]),
                _ => None,
            },
        }
    } else {
        None
    }
}

/// The image of an emoji; it is animated only when its `animated` says so.
pub open spec fn emoji_urls(e: JsonModel) -> Option<Seq<Seq<char>>> {
    if e is Object {
        match str_field(e, "id"@) {
            None => None,
            Some(id) => match e.field("animated"@) {
                None => Some(seq![emoji_link(id, false)]),
                Some(JsonModel::Bool(b)) => Some(seq![emoji_link(id, b)]),
                Some(_) => None,
            },
        }
    } else {
        None
    }
}

/// The URLs of a guild of the `READY` event: none for a guild other than `server`;
/// for `server`, its icon (WebP, then GIF) unless `null`, its roles' icons, its emojis.
pub open spec fn guild_urls(g: JsonModel, server: Seq<char>) -> Option<Seq<Seq<char>>> {
    if g is Object {
        match str_field(g, "id"@) {
            None => None,
            Some(id) => if id != server {
                Some(Seq::empty())
            } else {
                let icons = match g.field("icon"@) {
                    None => None,
                    Some(JsonModel::Null) => Some(Seq::empty()),
                    Some(JsonModel::Str(icon)) => Some(
                        seq![
                            guild_icon_link(id, icon, ".webp?size=4096&quality=lossless"@),
                            guild_icon_link(id, icon, ".gif?size=4096&quality=lossless"@),
                        ],
                    ),
                    Some(_) => None,
                };
                cat(
                    cat(icons, list_urls(g, "roles"@, |r: JsonModel| role_urls(r))),
                    list_urls(g, "emojis"@, |e: JsonModel| emoji_urls(e)),
                )
            },
        }
    } else {
        None
    }
}

/// The URLs of a gateway event: nothing unless it is a `READY` event with a sequence
/// number; for one, the URLs of its guilds. `None` also for an API version other than 9.
pub open spec fn gateway_urls(j: JsonModel, server: Seq<char>) -> Option<Seq<Seq<char>>> {
    if !(j is Object) {
        None
    } else {
        match (j.field("t"@), j.field("s"@)) {
            (Some(t), Some(s)) => if t is Null {
                Some(Seq::empty())
            } else {
                match t.text() {
                    None => None,
                    Some(kind) => if kind != "READY"@ || s is Null {
                        Some(Seq::empty())
                    } else {
                        match j.field("d"@) {
                            Some(d) => if d is Object {
                                match d.field("v"@) {
                                    Some(JsonModel::Number(v)) => if v != API_VERSION_BITS {
                                        None
                                    } else {
                                        list_urls(d, "guilds"@, |g: JsonModel| guild_urls(g, server))
                                    },
                                    _ => None,
                                }
                            } else {
                                None
                            },
                            None => None,
                        }
                    },
                }
            },
            _ => Some(Seq::empty()),
        }
    }
}

fn role_urls_of(r: &Json) -> (out: Option<Vec<String>>)
    ensures
        opt_strs(out) == role_urls(r.model()),
{
    if !r.is_object() {
        return None;
    }
    match r.get("icon") {
        None => Some(nothing()),
        Some(icon) => {
            if icon.is_null() {
                Some(nothing())
            } else {
                match (str_field_of(r, "id"), str_field_of(r, "icon")) {
                    (Some(id), Some(icon)) => Some(single(role_icon_link_of(id.as_str(), icon.as_str()))),
                    _ => None,
                }
            }
        },
    }
}

fn emoji_urls_of(e: &Json) -> (out: Option<Vec<String>>)
    ensures
        opt_strs(out) == emoji_urls(e.model()),
{
    if !e.is_object() {
        return None;
    }
    match str_field_of(e, "id") {
        None => None,
        Some(id) => match e.get("animated") {
            None => Some(single(emoji_link_of(id.as_str(), false))),
            Some(Json::Bool(b)) => Some(single(emoji_link_of(id.as_str(), *b))),
            Some(_) => None,
        },
    }
}

fn guild_urls_of(g: &Json, server: &str) -> (out: Option<Vec<String>>)
    ensures
        opt_strs(out) == guild_urls(g.model(), server@),
{
    if !g.is_object() {
        return None;
    }
    let id = match str_field_of(g, "id") {
        Some(id) => id,
        None => {
            return None;
        },
    };
    if !str_equal(id.as_str(), server) {
        return Some(nothing());
    }
    let icons = match g.get("icon") {
        None => None,
        Some(Json::Null) => Some(nothing()),
        Some(Json::Str(icon)) => {
            let mut v: Vec<String> = Vec::new();
            v.push(guild_icon_link_of(id.as_str(), icon.as_str(), ".webp?size=4096&quality=lossless"));
            v.push(guild_icon_link_of(id.as_str(), icon.as_str(), ".gif?size=4096&quality=lossless"));
            assert(strs(v@) =~= seq![
                guild_icon_link(id@, icon@, ".webp?size=4096&quality=lossless"@),
                guild_icon_link(id@, icon@, ".gif?size=4096&quality=lossless"@),
            ]);
            Some(v)
        },
        Some(_) => None,
    };
    let roles = list_urls_of(
        g,
        "roles",
        (|r: &Json| -> (out: Option<Vec<String>>)
            ensures
                opt_strs(out) == role_urls(r.model()),
            { role_urls_of(r) }),
        Ghost(|r: JsonModel| role_urls(r)),
    );
    let emojis = list_urls_of(
        g,
        "emojis",
        (|e: &Json| -> (out: Option<Vec<String>>)
            ensures
                opt_strs(out) == emoji_urls(e.model()),
            { emoji_urls_of(e) }),
        Ghost(|e: JsonModel| emoji_urls(e)),
    );
    join(join(icons, roles), emojis)
}

/// The URLs of a gateway event, as `gateway_urls` says; `None` exactly where that
/// gives none.
pub fn try_gateway_parse(json: &Json, server_id: &str) -> (r: Option<Vec<String>>)
    ensures
        opt_strs(r) == gateway_urls(json.model(), server_id@),
{
    if !json.is_object() {
        return None;
    }
    let (t, s) = match (json.get("t"), json.get("s")) {
        (Some(t), Some(s)) => (t, s),
        _ => {
            return Some(nothing());
        },
    };
    if t.is_null() {
        return Some(nothing());
    }
    let kind = match t.as_string() {
        Some(kind) => kind,
        None => {
            return None;
        },
    };
    if !str_equal(kind.as_str(), "READY") || s.is_null() {
        return Some(nothing());
    }
    let d = match json.get("d") {
        Some(d) => d,
        None => {
            return None;
        },
    };
    if !d.is_object() {
        return None;
    }
    match d.get("v") {
        Some(Json::Number(v)) => {
            if *v != API_VERSION_BITS {
                return None;
            }
        },
        _ => {
            return None;
        },
    }
    list_urls_of(
        d,
        "guilds",
        (|g: &Json| -> (out: Option<Vec<String>>)
            ensures
                opt_strs(out) == guild_urls(g.model(), server_id@),
            { guild_urls_of(g, server_id) }),
        Ghost(|g: JsonModel| guild_urls(g, server_id@)),
    )
}

/// The URLs of a gateway event, for an event on which `gateway_urls` gives some.
pub fn gateway_parse(json: Json, server_id: String) -> (r: Vec<String>)
    requires
        gateway_urls(json.model(), server_id@) is Some,
    ensures
        gateway_urls(json.model(), server_id@) == Some(strs(r@)),
{
    match try_gateway_parse(&json, server_id.as_str()) {
        Some(urls) => urls,
        None => Vec::new(),
    }
}


/// What a recorded HTTP exchange hands on as its messages: `Some(d)`, the `data` of the
/// response, when the request was a `GET` of the messages endpoint (`endpoint`)
/// answered with status 200; `None`, standing for an empty array, otherwise. The outer
/// `None`: a part that must be there is missing (the `type`; for an `http` exchange the
/// `status_code` of the response and the `path` and `method` of the request; for one
/// that qualifies, the `data`).
pub open spec fn message_data(j: JsonModel, endpoint: Seq<char>) -> Option<Option<JsonModel>> {
    match str_field(j, "type"@) {
        None => None,
        Some(kind) => if kind != "http"@ {
            Some(None)
        } else {
            match (j.field("response"@), j.field("request"@)) {
                (Some(response), Some(request)) => match (
                    response.field("status_code"@),
                    str_field(request, "path"@),
                    str_field(request, "method"@),
                ) {
                    (Some(JsonModel::Number(status)), Some(path), Some(method)) => if method == "GET"@
                        && status == HTTP_OK_BITS && regex_matches(endpoint, path).len() > 0 {
                        match response.field("data"@) {
                            Some(data) => Some(Some(data)),
                            None => None,
                        }
                    } else {
                        Some(None)
                    },
                    _ => None,
                },
                _ => None,
            }
        },
    }
}

/// The messages in what an exchange hands on: none for no data, the items of an array;
/// `None` for data that is not an array.
pub open spec fn batch_messages(data: Option<Option<JsonModel>>) -> Option<Seq<JsonModel>> {
    match data {
        None => None,
        Some(None) => Some(Seq::empty()),
        Some(Some(JsonModel::Array(messages))) => Some(messages),
        Some(Some(_)) => None,
    }
}

/// What a recorded HTTP exchange hands on as its messages, as `message_data` says.
pub fn try_messages_from_json<'a>(json: &'a Json, endpoint: &Pattern) -> (r: Option<Option<&'a Json>>)
    ensures
        r is None ==> message_data(json.model(), endpoint@) is None,
        r matches Some(None) ==> message_data(json.model(), endpoint@) == Some(None::<JsonModel>),
        r matches Some(Some(d)) ==> message_data(json.model(), endpoint@) == Some(Some(d.model())),
{
    let kind = match str_field_of(json, "type") {
        Some(kind) => kind,
        None => {
            return None;
        },
    };
    if !str_equal(kind.as_str(), "http") {
        return Some(None);
    }
    let (response, request) = match (json.get("response"), json.get("request")) {
        (Some(response), Some(request)) => (response, request),
        _ => {
            return None;
        },
    };
    let status = match response.get("status_code") {
        Some(Json::Number(status)) => *status,
        _ => {
            return None;
        },
    };
    let (path, method) = match (str_field_of(request, "path"), str_field_of(request, "method")) {
        (Some(path), Some(method)) => (path, method),
        _ => {
            return None;
        },
    };
    if str_equal(method.as_str(), "GET") && status == HTTP_OK_BITS && endpoint.is_match(path.as_str()) {
        match response.get("data") {
            Some(data) => Some(Some(data)),
            None => None,
        }
    } else {
        Some(None)
    }
}

/// What a recorded HTTP exchange hands on as its messages, for an exchange that holds
/// every part that must be there: the response's `data`, or `None` standing for an
/// empty array.
pub fn messages_from_json<'a>(json: &'a Json, endpoint: &Pattern) -> (r: Option<&'a Json>)
    requires
        message_data(json.model(), endpoint@) is Some,
    ensures
        r matches Some(d) ==> message_data(json.model(), endpoint@) == Some(Some(d.model())),
        r is None ==> message_data(json.model(), endpoint@) == Some(None::<JsonModel>),
{
    match try_messages_from_json(json, endpoint) {
        Some(data) => data,
        None => None,
    }
}

/// The avatar of a message's author, unless `null`.
pub open spec fn avatar_urls(m: JsonModel) -> Option<Seq<Seq<char>>> {
    match m.field("author"@) {
        None => None,
        Some(author) => match author.field("avatar"@) {
            None => None,
            Some(JsonModel::Null) => Some(Seq::empty()),
            Some(_) => match (str_field(author, "id"@), str_field(author, "avatar"@)) {
                (Some(user), Some(avatar)) => Some(seq![avatar_link(user, avatar)]),
                _ => None,
            },
        },
    }
}

/// The URLs of a message of a channel's history, in the order: links in its content,
/// its author's avatar, its attachments, its embeds, its components.
pub open spec fn message_urls(m: JsonModel, pattern: Seq<char>) -> Option<Seq<Seq<char>>> {
    cat(
        cat(
            cat(
                cat(text_links(m, "content"@, pattern), avatar_urls(m)),
                list_urls(m, "attachments"@, |a: JsonModel| one_url(a, "url"@)),
            ),
            embed_list_urls(m, pattern),
        ),
        component_urls(m),
    )
}

/// The URL candidates of one recorded exchange: with `use_websockets`, the URLs of a
/// received gateway event (for the guild `guild_id`); then the URLs of its messages.
pub open spec fn line_candidates(
    j: JsonModel,
    pattern: Seq<char>,
    endpoint: Seq<char>,
    guild_id: Seq<char>,
    use_websockets: bool,
) -> Option<Seq<Seq<char>>> {
    match str_field(j, "type"@) {
        None => None,
        Some(kind) => {
            let events = if kind == "ws"@ && use_websockets {
                match str_field(j, "direction"@) {
                    None => None,
                    Some(direction) => if direction == "recv"@ {
                        match j.field("data"@) {
                            Some(data) => gateway_urls(data, guild_id),
                            None => None,
                        }
                    } else {
                        Some(Seq::empty())
                    },
                }
            } else {
                Some(Seq::empty())
            };
            let messages = match batch_messages(message_data(j, endpoint)) {
                Some(ms) => collect_all(ms, |m: JsonModel| message_urls(m, pattern)),
                None => None,
            };
            cat(events, messages)
        },
    }
}

fn avatar_urls_of(m: &Json) -> (r: Option<Vec<String>>)
    ensures
        opt_strs(r) == avatar_urls(m.model()),
{
    match m.get("author") {
        None => None,
        Some(author) => match author.get("avatar") {
            None => None,
            Some(avatar) => {
                if avatar.is_null() {
                    Some(nothing())
                } else {
                    match (str_field_of(author, "id"), str_field_of(author, "avatar")) {
                        (Some(user), Some(avatar)) => Some(single(avatar_link_of(user.as_str(), avatar.as_str()))),
                        _ => None,
                    }
                }
            },
        },
    }
}

/// The URLs of a message of a channel's history, as `message_urls` says.
pub fn message_urls_of(m: &Json, pattern: &Pattern) -> (r: Option<Vec<String>>)
    ensures
        opt_strs(r) == message_urls(m.model(), pattern@),
{
    let content = text_links_of(m, "content", pattern);
    let attachments = list_urls_of(
        m,
        "attachments",
        (|a: &Json| -> (out: Option<Vec<String>>)
            ensures
                opt_strs(out) == one_url(a.model(), "url"@),
            { one_url_of(a, "url") }),
        Ghost(|a: JsonModel| one_url(a, "url"@)),
    );
    let a = join(content, avatar_urls_of(m));
    let b = join(a, attachments);
    let c = join(b, try_get_embed_urls(m, pattern));
    join(c, try_get_component_urls(m))
}

/// The URL candidates of one recorded exchange, as `line_candidates` says.
pub fn line_urls(
    json: &Json,
    pattern: &Pattern,
    endpoint: &Pattern,
    guild_id: &str,
    use_websockets: bool,
) -> (r: Option<Vec<String>>)
    ensures
        opt_strs(r) == line_candidates(json.model(), pattern@, endpoint@, guild_id@, use_websockets),
{
    let kind = match str_field_of(json, "type") {
        Some(kind) => kind,
        None => {
            return None;
        },
    };
    let events = if str_equal(kind.as_str(), "ws") && use_websockets {
        match str_field_of(json, "direction") {
            None => None,
            Some(direction) => {
                if str_equal(direction.as_str(), "recv") {
                    match json.get("data") {
                        Some(data) => try_gateway_parse(data, guild_id),
                        None => None,
                    }
                } else {
                    Some(nothing())
                }
            },
        }
    } else {
        Some(nothing())
    };
    let messages = match try_messages_from_json(json, endpoint) {
        None => None,
        Some(None) => {
            assert(collect_all(Seq::<JsonModel>::empty(), |m: JsonModel| message_urls(m, pattern@)) == Some(
                Seq::<Seq<char>>::empty(),
            ));
            Some(nothing())
        },
        Some(Some(data)) => match data.as_array() {
            None => None,
            Some(ms) => collect_each(
                ms,
                (|m: &Json| -> (out: Option<Vec<String>>)
                    ensures
                        opt_strs(out) == message_urls(m.model(), pattern@),
                    { message_urls_of(m, pattern) }),
                Ghost(|m: JsonModel| message_urls(m, pattern@)),
            ),
        },
    };
    join(events, messages)
}

/// The URL of a reaction's emoji image.
pub open spec fn reaction_url(r: JsonModel) -> Option<Seq<Seq<char>>> {
    match r.field("emoji"@) {
        Some(e) => if e is Object {
            one_url(e, "imageUrl"@)
        } else {
            None
        },
        None => None,
    }
}

/// The URLs of a message of a DiscordChatExporter export, in the order: its author's
/// avatar, links in its content, its attachments, its reactions' emojis, its embeds.
pub open spec fn export_message_urls(m: JsonModel, pattern: Seq<char>) -> Option<Seq<Seq<char>>> {
    cat(
        cat(
            cat(
                cat(nested_url(m, "author"@, "avatarUrl"@), text_links(m, "content"@, pattern)),
                list_urls(m, "attachments"@, |a: JsonModel| one_url(a, "url"@)),
            ),
            list_urls(m, "reactions"@, |r: JsonModel| reaction_url(r)),
        ),
        embed_list_urls(m, pattern),
    )
}

/// The URL candidates of a DiscordChatExporter export: the guild's icon, then the URLs
/// of each of its messages.
pub open spec fn export_candidates(j: JsonModel, pattern: Seq<char>) -> Option<Seq<Seq<char>>> {
    cat(
        nested_url(j, "guild"@, "iconUrl"@),
        list_urls(j, "messages"@, |m: JsonModel| export_message_urls(m, pattern)),
    )
}

fn reaction_url_of(r: &Json) -> (out: Option<Vec<String>>)
    ensures
        opt_strs(out) == reaction_url(r.model()),
{
    match r.get("emoji") {
        Some(e) => {
            if e.is_object() {
                one_url_of(e, "imageUrl")
            } else {
                None
            }
        },
        None => None,
    }
}

fn export_message_urls_of(m: &Json, pattern: &Pattern) -> (r: Option<Vec<String>>)
    ensures
        opt_strs(r) == export_message_urls(m.model(), pattern@),
{
    let attachments = list_urls_of(
        m,
        "attachments",
        (|a: &Json| -> (out: Option<Vec<String>>)
            ensures
                opt_strs(out) == one_url(a.model(), "url"@),
            { one_url_of(a, "url") }),
        Ghost(|a: JsonModel| one_url(a, "url"@)),
    );
    let reactions = list_urls_of(
        m,
        "reactions",
        (|r: &Json| -> (out: Option<Vec<String>>)
            ensures
                opt_strs(out) == reaction_url(r.model()),
            { reaction_url_of(r) }),
        Ghost(|r: JsonModel| reaction_url(r)),
    );
    let a = join(nested_url_of(m, "author", "avatarUrl"), text_links_of(m, "content", pattern));
    let b = join(a, attachments);
    let c = join(b, reactions);
    join(c, try_get_embed_urls(m, pattern))
}

/// The URL candidates of a DiscordChatExporter export, as `export_candidates` says.
pub fn export_urls(json: &Json, pattern: &Pattern) -> (r: Option<Vec<String>>)
    ensures
        opt_strs(r) == export_candidates(json.model(), pattern@),
{
    let messages = list_urls_of(
        json,
        "messages",
        (|m: &Json| -> (out: Option<Vec<String>>)
            ensures
                opt_strs(out) == export_message_urls(m.model(), pattern@),
            { export_message_urls_of(m, pattern) }),
        Ghost(|m: JsonModel| export_message_urls(m, pattern@)),
    );
    join(nested_url_of(json, "guild", "iconUrl"), messages)
}


/// The URLs of two lists of embeds, one after the other, are those of the first list,
/// then those of the second.
pub proof fn lemma_embed_lists_concat(a: Seq<JsonModel>, b: Seq<JsonModel>, pattern: Seq<char>)
    ensures
        collect_all(a + b, |e: JsonModel| embed_urls(e, pattern)) == cat(
            collect_all(a, |e: JsonModel| embed_urls(e, pattern)),
            collect_all(b, |e: JsonModel| embed_urls(e, pattern)),
        ),
{
    lemma_collect_concat(a, b, |e: JsonModel| embed_urls(e, pattern));
}

/// A guild of the `READY` event other than the server contributes no URL.
pub proof fn lemma_other_guild_contributes_nothing(g: JsonModel, server: Seq<char>)
    requires
        g is Object,
        str_field(g, "id"@) matches Some(id) && id != server,
    ensures
        guild_urls(g, server) == Some(Seq::<Seq<char>>::empty()),
{
}

/// A guild of the `READY` event that is not the server: an object whose `id` is a
/// string other than `server`.
pub open spec fn other_guild(g: JsonModel, server: Seq<char>) -> bool {
    g is Object && (str_field(g, "id"@) matches Some(id) && id != server)
}

/// The gateway event `j` with its guilds (`d.guilds`) replaced by `guilds`.
pub open spec fn with_guilds(j: JsonModel, guilds: Seq<JsonModel>) -> JsonModel {
    match (j, j.field("d"@)) {
        (JsonModel::Object(top), Some(JsonModel::Object(d))) => JsonModel::Object(
            top.insert("d"@, JsonModel::Object(d.insert("guilds"@, JsonModel::Array(guilds)))),
        ),
        _ => j,
    }
}

/// Removing from a gateway event the guilds other than the server changes nothing of
/// what the event gives; when every guild is another one, it gives no URL.
pub proof fn lemma_other_guilds_contribute_nothing(j: JsonModel, guilds: Seq<JsonModel>, server: Seq<char>)
    requires
        j.field("d"@) matches Some(d) && d.field("guilds"@) == Some(JsonModel::Array(guilds)),
    ensures
        gateway_urls(with_guilds(j, without(guilds, |g: JsonModel| other_guild(g, server))), server)
            == gateway_urls(j, server),
        (forall|i: int| 0 <= i < guilds.len() ==> other_guild(#[trigger] guilds[i], server))
            ==> (gateway_urls(j, server) matches Some(u) ==> u.len() == 0),
{
    reveal_strlit("d");
    reveal_strlit("t");
    reveal_strlit("s");
    reveal_strlit("v");
    reveal_strlit("guilds");
    let drop = |g: JsonModel| other_guild(g, server);
    let f = |g: JsonModel| guild_urls(g, server);
    assert forall|x: JsonModel| #[trigger] drop(x) implies f(x) == Some(Seq::<Seq<char>>::empty()) by {
        lemma_other_guild_contributes_nothing(x, server);
    }
    lemma_collect_without_quiet(guilds, f, drop);
    let kept = without(guilds, drop);
    let j2 = with_guilds(j, kept);
    assert("t"@ != "d"@) by {
        assert("t"@[0] != "d"@[0]);
    }
    assert("s"@ != "d"@) by {
        assert("s"@[0] != "d"@[0]);
    }
    assert("v"@ != "guilds"@) by {
        assert("v"@.len() != "guilds"@.len());
    }
    if let Some(JsonModel::Object(dm)) = j.field("d"@) {
        let d2 = JsonModel::Object(dm.insert("guilds"@, JsonModel::Array(kept)));
        assert(j2.field("t"@) == j.field("t"@));
        assert(j2.field("s"@) == j.field("s"@));
        assert(j2.field("d"@) == Some(d2));
        assert(d2.field("v"@) == j.field("d"@).unwrap().field("v"@));
        assert(d2.field("guilds"@) == Some(JsonModel::Array(kept)));
    }
    if forall|i: int| 0 <= i < guilds.len() ==> other_guild(#[trigger] guilds[i], server) {
        assert forall|i: int| 0 <= i < guilds.len() implies #[trigger] drop(guilds[i]) by {
            assert(other_guild(guilds[i], server));
        }
        lemma_without_all(guilds, drop);
    }
}

/// Without `--parse-websockets`, a recorded exchange that hands on no messages
/// contributes no URL.
pub proof fn lemma_line_without_messages(
    j: JsonModel,
    pattern: Seq<char>,
    endpoint: Seq<char>,
    guild_id: Seq<char>,
)
    requires
        str_field(j, "type"@) is Some,
        message_data(j, endpoint) == Some(None::<JsonModel>),
    ensures
        line_candidates(j, pattern, endpoint, guild_id, false) == Some(Seq::<Seq<char>>::empty()),
{
    assert(Seq::<Seq<char>>::empty() + Seq::<Seq<char>>::empty() =~= Seq::<Seq<char>>::empty());
}

/// The image of an emoji is a GIF exactly when its `animated` is `true`, and a WebP
/// when its `animated` is `false` or absent; an `animated` that is not a boolean is refused.
pub proof fn lemma_emoji_animated_gif(e: JsonModel, id: Seq<char>)
    requires
        e is Object,
        e.field("id"@) == Some(JsonModel::Str(id)),
    ensures
        e.field("animated"@) == Some(JsonModel::Bool(true)) ==> emoji_urls(e) == Some(
            seq!["https://cdn.discordapp.com/emojis/"@ + id + ".gif?size=4096&quality=lossless"@],
        ),
        e.field("animated"@) == Some(JsonModel::Bool(false)) || e.field("animated"@) is None ==> emoji_urls(e) == Some(
            seq!["https://cdn.discordapp.com/emojis/"@ + id + ".webp?size=4096&quality=lossless"@],
        ),
        e.field("animated"@) matches Some(v) ==> (!(v is Bool) ==> emoji_urls(e) is None),
{
}

/// The icon of a role that has a non-`null` icon is its role-icon link.
pub proof fn lemma_role_icon(r: JsonModel, id: Seq<char>, icon: Seq<char>)
    requires
        r is Object,
        r.field("id"@) == Some(JsonModel::Str(id)),
        r.field("icon"@) == Some(JsonModel::Str(icon)),
    ensures
        role_urls(r) == Some(
            seq!["https://cdn.discordapp.com/role-icons/"@ + id + "/"@ + icon + ".webp?size=4096&quality=lossless"@],
        ),
{
}

/// The URLs of the server's guild hold its icon (WebP and GIF) when it has one, and
/// the URLs of each of its roles and each of its emojis.
pub proof fn lemma_server_guild_assets(g: JsonModel, server: Seq<char>, u: Seq<Seq<char>>)
    requires
        g.field("id"@) == Some(JsonModel::Str(server)),
        guild_urls(g, server) == Some(u),
    ensures
        g.field("icon"@) matches Some(JsonModel::Str(icon)) ==> {
            &&& u.contains("https://cdn.discordapp.com/icons/"@ + server + "/"@ + icon + ".webp?size=4096&quality=lossless"@)
            &&& u.contains("https://cdn.discordapp.com/icons/"@ + server + "/"@ + icon + ".gif?size=4096&quality=lossless"@)
        },
        g.field("roles"@) matches Some(JsonModel::Array(rs)) ==> forall|i: int| 0 <= i < rs.len() ==>
            (#[trigger] role_urls(rs[i])) is Some && all_in(role_urls(rs[i]).unwrap(), u),
        g.field("emojis"@) matches Some(JsonModel::Array(es)) ==> forall|i: int| 0 <= i < es.len() ==>
            (#[trigger] emoji_urls(es[i])) is Some && all_in(emoji_urls(es[i]).unwrap(), u),
{
    let icons = match g.field("icon"@) {
        None => None,
        Some(JsonModel::Null) => Some(Seq::empty()),
        Some(JsonModel::Str(icon)) => Some(
            seq![
                guild_icon_link(server, icon, ".webp?size=4096&quality=lossless"@),
                guild_icon_link(server, icon, ".gif?size=4096&quality=lossless"@),
            ],
        ),
        Some(_) => None,
    };
    let roles = list_urls(g, "roles"@, |r: JsonModel| role_urls(r));
    let emojis = list_urls(g, "emojis"@, |e: JsonModel| emoji_urls(e));
    lemma_cat_parts(cat(icons, roles), emojis, u);
    let ir = cat(icons, roles).unwrap();
    lemma_cat_parts(icons, roles, ir);
    if let Some(JsonModel::Str(icon)) = g.field("icon"@) {
        let l = icons.unwrap();
        assert(ir.contains(l[0]) && ir.contains(l[1]));
        lemma_all_in_trans(l, ir, u);
        assert(u.contains(l[0]) && u.contains(l[1]));
    }
    if let Some(JsonModel::Array(rs)) = g.field("roles"@) {
        let rf = |r: JsonModel| role_urls(r);
        assert(roles == collect_all(rs, rf));
        lemma_collect_parts(rs, rf, roles.unwrap());
        assert forall|i: int| 0 <= i < rs.len() implies (#[trigger] role_urls(rs[i])) is Some && all_in(
            role_urls(rs[i]).unwrap(),
            u,
        ) by {
            assert(rf(rs[i]) is Some && all_in(rf(rs[i]).unwrap(), roles.unwrap()));
            lemma_all_in_trans(role_urls(rs[i]).unwrap(), roles.unwrap(), ir);
            lemma_all_in_trans(role_urls(rs[i]).unwrap(), ir, u);
        }
    }
    if let Some(JsonModel::Array(es)) = g.field("emojis"@) {
        let ef = |e: JsonModel| emoji_urls(e);
        assert(emojis == collect_all(es, ef));
        lemma_collect_parts(es, ef, emojis.unwrap());
        assert forall|i: int| 0 <= i < es.len() implies (#[trigger] emoji_urls(es[i])) is Some && all_in(
            emoji_urls(es[i]).unwrap(),
            u,
        ) by {
            assert(ef(es[i]) is Some && all_in(ef(es[i]).unwrap(), emojis.unwrap()));
            lemma_all_in_trans(emoji_urls(es[i]).unwrap(), emojis.unwrap(), u);
        }
    }
}

/// The URLs of a `READY` event with a sequence number hold the URLs of each of its guilds.
pub proof fn lemma_ready_guilds(j: JsonModel, server: Seq<char>, u: Seq<Seq<char>>)
    requires
        j.field("t"@) == Some(JsonModel::Str("READY"@)),
        j.field("s"@) matches Some(s) && !(s is Null),
        gateway_urls(j, server) == Some(u),
    ensures
        j.field("d"@) matches Some(d) && d.field("guilds"@) matches Some(JsonModel::Array(gs)) && forall|i: int|
            0 <= i < gs.len() ==> (#[trigger] guild_urls(gs[i], server)) is Some && all_in(
                guild_urls(gs[i], server).unwrap(),
                u,
            ),
{
    reveal_strlit("READY");
    let d = j.field("d"@).unwrap();
    let gf = |g: JsonModel| guild_urls(g, server);
    assert(list_urls(d, "guilds"@, gf) == Some(u));
    if let Some(JsonModel::Array(gs)) = d.field("guilds"@) {
        lemma_collect_parts(gs, gf, u);
        assert forall|i: int| 0 <= i < gs.len() implies (#[trigger] guild_urls(gs[i], server)) is Some && all_in(
            guild_urls(gs[i], server).unwrap(),
            u,
        ) by {
            assert(gf(gs[i]) is Some && all_in(gf(gs[i]).unwrap(), u));
        }
    }
}

/// The URLs of an embed hold every link that the embed names: its footer's icon, its
/// thumbnail, its video (when the embed has a `url`), its author's `url` (unless
/// `null`), `icon_url` and `proxy_icon_url`, its provider's `url`, every link in its
/// text, its image, and its own `url` (unless `null`).
#[verifier::rlimit(40)]
pub proof fn lemma_embed_links(e: JsonModel, pattern: Seq<char>, u: Seq<Seq<char>>)
    requires
        embed_urls(e, pattern) == Some(u),
    ensures
        e.field("footer"@) matches Some(ft) ==> (ft.field("icon_url"@) matches Some(JsonModel::Str(x)) ==> u.contains(x)),
        e.field("thumbnail"@) matches Some(th) ==> (th.field("url"@) matches Some(JsonModel::Str(x)) ==> u.contains(x)),
        e.field("video"@) matches Some(vd) ==> (vd.field("url"@) matches Some(JsonModel::Str(x)) ==> (e.has_field(
            "url"@,
        ) ==> u.contains(x))),
        e.field("author"@) matches Some(a) ==> (a.field("url"@) matches Some(JsonModel::Str(x)) ==> u.contains(x)),
        e.field("author"@) matches Some(a) ==> (a.field("icon_url"@) matches Some(JsonModel::Str(x)) ==> u.contains(x)),
        e.field("author"@) matches Some(a) ==> (a.field("proxy_icon_url"@) matches Some(JsonModel::Str(x)) ==> u.contains(
            x,
        )),
        e.field("provider"@) matches Some(p) ==> (p.field("url"@) matches Some(JsonModel::Str(x)) ==> u.contains(x)),
        e.field("image"@) matches Some(i) ==> (i.field("url"@) matches Some(JsonModel::Str(x)) ==> u.contains(x)),
        e.field("url"@) matches Some(JsonModel::Str(x)) ==> u.contains(x),
        e.field("description"@) matches Some(JsonModel::Str(d)) ==> (e.field("title"@) is None ==> (e.field("footer"@) is None
            ==> all_in(regex_matches(pattern, d), u))),
        e.field("description"@) matches Some(JsonModel::Str(d)) ==> (e.field("title"@) matches Some(JsonModel::Str(t)) ==> (
        e.field("footer"@) is None ==> all_in(regex_matches(pattern, t + seq!['\n'] + d), u))),
{
    let footer = embed_footer_urls(e);
    let thumb = nested_url_if(e, "thumbnail"@, "thumbnail"@, "url"@);
    let video = embed_video_url(e);
    let author = embed_author_urls(e);
    let provider = embed_provider_urls(e);
    let text = embed_text_urls(e, pattern);
    let image = nested_url_if(e, "image"@, "image"@, "url"@);
    let own = url_if_set(e, "url"@);
    let c1 = cat(footer, thumb);
    let c2 = cat(c1, video);
    let c3 = cat(c2, author);
    let c4 = cat(c3, provider);
    let c5 = cat(c4, text);
    let c6 = cat(c5, image);
    lemma_cat_parts(c6, own, u);
    lemma_cat_parts(c5, image, c6.unwrap());
    lemma_cat_parts(c4, text, c5.unwrap());
    lemma_cat_parts(c3, provider, c4.unwrap());
    lemma_cat_parts(c2, author, c3.unwrap());
    lemma_cat_parts(c1, video, c2.unwrap());
    lemma_cat_parts(footer, thumb, c1.unwrap());
    lemma_all_in_trans(c5.unwrap(), c6.unwrap(), u);
    lemma_all_in_trans(c4.unwrap(), c5.unwrap(), u);
    lemma_all_in_trans(c3.unwrap(), c4.unwrap(), u);
    lemma_all_in_trans(c2.unwrap(), c3.unwrap(), u);
    lemma_all_in_trans(c1.unwrap(), c2.unwrap(), u);
    lemma_all_in_trans(image.unwrap(), c6.unwrap(), u);
    lemma_all_in_trans(text.unwrap(), c5.unwrap(), u);
    lemma_all_in_trans(provider.unwrap(), c4.unwrap(), u);
    lemma_all_in_trans(author.unwrap(), c3.unwrap(), u);
    lemma_all_in_trans(video.unwrap(), c2.unwrap(), u);
    lemma_all_in_trans(thumb.unwrap(), c1.unwrap(), u);
    lemma_all_in_trans(footer.unwrap(), c1.unwrap(), u);
    if let Some(a) = e.field("author"@) {
        let a1 = cat(url_if_set(a, "url"@), url_if_present(a, "icon_url"@));
        lemma_cat_parts(a1, url_if_present(a, "proxy_icon_url"@), author.unwrap());
        lemma_cat_parts(url_if_set(a, "url"@), url_if_present(a, "icon_url"@), a1.unwrap());
        lemma_all_in_trans(a1.unwrap(), author.unwrap(), u);
        if let Some(JsonModel::Str(x)) = a.field("url"@) {
            lemma_all_in_trans(url_if_set(a, "url"@).unwrap(), a1.unwrap(), u);
            assert(url_if_set(a, "url"@).unwrap()[0] == x);
        }
        if let Some(JsonModel::Str(x)) = a.field("icon_url"@) {
            lemma_all_in_trans(url_if_present(a, "icon_url"@).unwrap(), a1.unwrap(), u);
            assert(url_if_present(a, "icon_url"@).unwrap()[0] == x);
        }
        if let Some(JsonModel::Str(x)) = a.field("proxy_icon_url"@) {
            lemma_all_in_trans(url_if_present(a, "proxy_icon_url"@).unwrap(), author.unwrap(), u);
            assert(url_if_present(a, "proxy_icon_url"@).unwrap()[0] == x);
        }
    }
    if let Some(f) = e.field("footer"@) {
        if let Some(JsonModel::Str(x)) = f.field("icon_url"@) {
            assert(footer.unwrap()[0] == x);
        }
    }
    if let Some(t) = e.field("thumbnail"@) {
        if let Some(JsonModel::Str(x)) = t.field("url"@) {
            assert(thumb.unwrap()[0] == x);
        }
    }
    if e.has_field("url"@) {
        if let Some(v) = e.field("video"@) {
            if let Some(JsonModel::Str(x)) = v.field("url"@) {
                assert(video.unwrap()[0] == x);
            }
        }
    }
    if let Some(p) = e.field("provider"@) {
        if let Some(JsonModel::Str(x)) = p.field("url"@) {
            assert(provider.unwrap()[0] == x);
        }
    }
    if let Some(i) = e.field("image"@) {
        if let Some(JsonModel::Str(x)) = i.field("url"@) {
            assert(image.unwrap()[0] == x);
        }
    }
    if let Some(JsonModel::Str(x)) = e.field("url"@) {
        assert(own.unwrap()[0] == x);
    }
    if let Some(JsonModel::Str(d)) = e.field("description"@) {
        if e.field("footer"@) is None {
            if e.field("title"@) is None {
                assert(text == Some(regex_matches(pattern, d)));
            }
            if let Some(JsonModel::Str(t)) = e.field("title"@) {
                assert(text == Some(regex_matches(pattern, t + seq!['\n'] + d)));
            }
        }
    }
}

/// Every component of a row that has a string `url` gives that link.
pub proof fn lemma_row_component_links(row: JsonModel, v: Seq<Seq<char>>)
    requires
        row_component_urls(row) == Some(v),
    ensures
        row.field("components"@) matches Some(JsonModel::Array(cs)) && forall|k: int| 0 <= k < cs.len() ==> (
        (#[trigger] cs[k]).field("url"@) matches Some(JsonModel::Str(x)) ==> v.contains(x)),
{
    if let Some(JsonModel::Array(cs)) = row.field("components"@) {
        let cf = |c: JsonModel| component_url(c);
        lemma_collect_parts(cs, cf, v);
        assert forall|k: int| 0 <= k < cs.len() implies ((#[trigger] cs[k]).field("url"@) matches Some(JsonModel::Str(x))
            ==> v.contains(x)) by {
            assert(cf(cs[k]) is Some && all_in(cf(cs[k]).unwrap(), v));
            if let Some(JsonModel::Str(x)) = cs[k].field("url"@) {
                assert(cf(cs[k]).unwrap()[0] == x);
            }
        }
    }
}

/// The component links of a message hold the links of each of its rows.
pub proof fn lemma_component_rows(m: JsonModel, u: Seq<Seq<char>>)
    requires
        component_urls(m) == Some(u),
    ensures
        m.field("components"@) matches Some(JsonModel::Array(rows)) && forall|i: int| 0 <= i < rows.len() ==> (
        #[trigger] row_component_urls(rows[i])) is Some && all_in(row_component_urls(rows[i]).unwrap(), u),
{
    if let Some(JsonModel::Array(rows)) = m.field("components"@) {
        let rf = |row: JsonModel| row_component_urls(row);
        lemma_collect_parts(rows, rf, u);
        assert forall|i: int| 0 <= i < rows.len() implies (#[trigger] row_component_urls(rows[i])) is Some && all_in(
            row_component_urls(rows[i]).unwrap(),
            u,
        ) by {
            assert(rf(rows[i]) is Some && all_in(rf(rows[i]).unwrap(), u));
        }
    }
}

/// The URLs of a message of a channel's history: first every link of its content, in
/// order; then, among them, its author's avatar (unless `null`), the link of each of its
/// attachments, the URLs of each of its embeds, and all of its component links.
pub proof fn lemma_message_parts(m: JsonModel, pattern: Seq<char>, u: Seq<Seq<char>>)
    requires
        message_urls(m, pattern) == Some(u),
    ensures
        m.field("content"@) matches Some(JsonModel::Str(c)) && regex_matches(pattern, c).len() <= u.len()
            && u.subrange(0, regex_matches(pattern, c).len() as int) == regex_matches(pattern, c),
        m.field("author"@) matches Some(a) ==> (a.field("id"@) matches Some(JsonModel::Str(id)) ==> (a.field(
            "avatar"@,
        ) matches Some(JsonModel::Str(av)) ==> u.contains(
            "https://cdn.discordapp.com/avatars/"@ + id + "/"@ + av + ".webp?size=4096"@,
        ))),
        m.field("attachments"@) matches Some(JsonModel::Array(atts)) && forall|k: int| 0 <= k < atts.len() ==> (
        (#[trigger] atts[k]).field("url"@) matches Some(JsonModel::Str(x)) ==> u.contains(x)),
        m.field("embeds"@) matches Some(JsonModel::Array(es)) && forall|k: int| 0 <= k < es.len() ==> (
        #[trigger] embed_urls(es[k], pattern)) is Some && all_in(embed_urls(es[k], pattern).unwrap(), u),
        component_urls(m) matches Some(cu) && all_in(cu, u),
{
    let t = text_links(m, "content"@, pattern);
    let av = avatar_urls(m);
    let at = list_urls(m, "attachments"@, |a: JsonModel| one_url(a, "url"@));
    let em = embed_list_urls(m, pattern);
    let co = component_urls(m);
    let c1 = cat(t, av);
    let c2 = cat(c1, at);
    let c3 = cat(c2, em);
    lemma_cat_parts(c3, co, u);
    lemma_cat_parts(c2, em, c3.unwrap());
    lemma_cat_parts(c1, at, c2.unwrap());
    lemma_cat_parts(t, av, c1.unwrap());
    lemma_all_in_trans(c2.unwrap(), c3.unwrap(), u);
    lemma_all_in_trans(c1.unwrap(), c2.unwrap(), u);
    lemma_all_in_trans(av.unwrap(), c1.unwrap(), u);
    lemma_all_in_trans(at.unwrap(), c2.unwrap(), u);
    lemma_all_in_trans(em.unwrap(), c3.unwrap(), u);
    let tv = t.unwrap();
    assert(u.subrange(0, tv.len() as int) =~= tv);
    if let Some(a) = m.field("author"@) {
        if let Some(JsonModel::Str(id)) = a.field("id"@) {
            if let Some(JsonModel::Str(x)) = a.field("avatar"@) {
                assert(av.unwrap()[0] == avatar_link(id, x));
            }
        }
    }
    if let Some(JsonModel::Array(atts)) = m.field("attachments"@) {
        let af = |a: JsonModel| one_url(a, "url"@);
        assert(at == collect_all(atts, af));
        lemma_collect_parts(atts, af, at.unwrap());
        assert forall|k: int| 0 <= k < atts.len() implies ((#[trigger] atts[k]).field("url"@) matches Some(
            JsonModel::Str(x),
        ) ==> u.contains(x)) by {
            assert(af(atts[k]) is Some && all_in(af(atts[k]).unwrap(), at.unwrap()));
            lemma_all_in_trans(af(atts[k]).unwrap(), at.unwrap(), u);
            if let Some(JsonModel::Str(x)) = atts[k].field("url"@) {
                assert(af(atts[k]).unwrap()[0] == x);
            }
        }
    }
    if let Some(JsonModel::Array(es)) = m.field("embeds"@) {
        let ef = |e: JsonModel| embed_urls(e, pattern);
        assert(em == collect_all(es, ef));
        lemma_collect_parts(es, ef, em.unwrap());
        assert forall|k: int| 0 <= k < es.len() implies (#[trigger] embed_urls(es[k], pattern)) is Some && all_in(
            embed_urls(es[k], pattern).unwrap(),
            u,
        ) by {
            assert(ef(es[k]) is Some && all_in(ef(es[k]).unwrap(), em.unwrap()));
            lemma_all_in_trans(ef(es[k]).unwrap(), em.unwrap(), u);
        }
    }
}

/// The candidates of a recorded exchange hold the URLs of each message it hands on.
pub proof fn lemma_line_messages(
    j: JsonModel,
    pattern: Seq<char>,
    endpoint: Seq<char>,
    guild_id: Seq<char>,
    use_websockets: bool,
    c: Seq<Seq<char>>,
)
    requires
        line_candidates(j, pattern, endpoint, guild_id, use_websockets) == Some(c),
    ensures
        batch_messages(message_data(j, endpoint)) matches Some(ms) && forall|i: int| 0 <= i < ms.len() ==> (
        #[trigger] message_urls(ms[i], pattern)) is Some && all_in(message_urls(ms[i], pattern).unwrap(), c),
{
    let kind = str_field(j, "type"@).unwrap();
    let events = if kind == "ws"@ && use_websockets {
        match str_field(j, "direction"@) {
            None => None,
            Some(direction) => if direction == "recv"@ {
                match j.field("data"@) {
                    Some(data) => gateway_urls(data, guild_id),
                    None => None,
                }
            } else {
                Some(Seq::empty())
            },
        }
    } else {
        Some(Seq::empty())
    };
    let mf = |m: JsonModel| message_urls(m, pattern);
    let ms = batch_messages(message_data(j, endpoint)).unwrap();
    let messages = collect_all(ms, mf);
    assert(cat(events, messages) == Some(c));
    lemma_cat_parts(events, messages, c);
    lemma_collect_parts(ms, mf, messages.unwrap());
    assert forall|i: int| 0 <= i < ms.len() implies (#[trigger] message_urls(ms[i], pattern)) is Some && all_in(
        message_urls(ms[i], pattern).unwrap(),
        c,
    ) by {
        assert(mf(ms[i]) is Some && all_in(mf(ms[i]).unwrap(), messages.unwrap()));
        lemma_all_in_trans(mf(ms[i]).unwrap(), messages.unwrap(), c);
    }
}

/// The URLs of a message of a DiscordChatExporter export: first its author's avatar,
/// then every link of its content, in order; then, among them, the link of each of its
/// attachments, the image of each of its reactions' emojis, and the URLs of each of its
/// embeds.
pub proof fn lemma_export_message_parts(m: JsonModel, pattern: Seq<char>, u: Seq<Seq<char>>)
    requires
        export_message_urls(m, pattern) == Some(u),
    ensures
        m.field("author"@) matches Some(a) && a.field("avatarUrl"@) matches Some(JsonModel::Str(av)) && u.len() > 0
            && u[0] == av,
        m.field("content"@) matches Some(JsonModel::Str(c)) && 1 + regex_matches(pattern, c).len() <= u.len()
            && u.subrange(1, 1 + regex_matches(pattern, c).len() as int) == regex_matches(pattern, c),
        m.field("attachments"@) matches Some(JsonModel::Array(atts)) && forall|k: int| 0 <= k < atts.len() ==> (
        (#[trigger] atts[k]).field("url"@) matches Some(JsonModel::Str(x)) ==> u.contains(x)),
        m.field("reactions"@) matches Some(JsonModel::Array(rs)) && forall|k: int| 0 <= k < rs.len() ==> (
        (#[trigger] rs[k]).field("emoji"@) matches Some(emoji) ==> (emoji.field("imageUrl"@) matches Some(
            JsonModel::Str(x),
        ) ==> u.contains(x))),
        m.field("embeds"@) matches Some(JsonModel::Array(es)) && forall|k: int| 0 <= k < es.len() ==> (
        #[trigger] embed_urls(es[k], pattern)) is Some && all_in(embed_urls(es[k], pattern).unwrap(), u),
{
    let avt = nested_url(m, "author"@, "avatarUrl"@);
    let t = text_links(m, "content"@, pattern);
    let at = list_urls(m, "attachments"@, |a: JsonModel| one_url(a, "url"@));
    let re = list_urls(m, "reactions"@, |r: JsonModel| reaction_url(r));
    let em = embed_list_urls(m, pattern);
    let c1 = cat(avt, t);
    let c2 = cat(c1, at);
    let c3 = cat(c2, re);
    lemma_cat_parts(c3, em, u);
    lemma_cat_parts(c2, re, c3.unwrap());
    lemma_cat_parts(c1, at, c2.unwrap());
    lemma_cat_parts(avt, t, c1.unwrap());
    lemma_all_in_trans(c2.unwrap(), c3.unwrap(), u);
    lemma_all_in_trans(at.unwrap(), c2.unwrap(), u);
    lemma_all_in_trans(re.unwrap(), c3.unwrap(), u);
    let tv = t.unwrap();
    assert(u.subrange(1, 1 + tv.len() as int) =~= tv);
    if let Some(JsonModel::Array(atts)) = m.field("attachments"@) {
        let af = |a: JsonModel| one_url(a, "url"@);
        assert(at == collect_all(atts, af));
        lemma_collect_parts(atts, af, at.unwrap());
        assert forall|k: int| 0 <= k < atts.len() implies ((#[trigger] atts[k]).field("url"@) matches Some(
            JsonModel::Str(x),
        ) ==> u.contains(x)) by {
            assert(af(atts[k]) is Some && all_in(af(atts[k]).unwrap(), at.unwrap()));
            lemma_all_in_trans(af(atts[k]).unwrap(), at.unwrap(), u);
            if let Some(JsonModel::Str(x)) = atts[k].field("url"@) {
                assert(af(atts[k]).unwrap()[0] == x);
            }
        }
    }
    if let Some(JsonModel::Array(rs)) = m.field("reactions"@) {
        let rf = |r: JsonModel| reaction_url(r);
        assert(re == collect_all(rs, rf));
        lemma_collect_parts(rs, rf, re.unwrap());
        assert forall|k: int| 0 <= k < rs.len() implies ((#[trigger] rs[k]).field("emoji"@) matches Some(emoji) ==> (
        emoji.field("imageUrl"@) matches Some(JsonModel::Str(x)) ==> u.contains(x))) by {
            assert(rf(rs[k]) is Some && all_in(rf(rs[k]).unwrap(), re.unwrap()));
            lemma_all_in_trans(rf(rs[k]).unwrap(), re.unwrap(), u);
            if let Some(emoji) = rs[k].field("emoji"@) {
                if let Some(JsonModel::Str(x)) = emoji.field("imageUrl"@) {
                    assert(rf(rs[k]).unwrap()[0] == x);
                }
            }
        }
    }
    if let Some(JsonModel::Array(es)) = m.field("embeds"@) {
        let ef = |e: JsonModel| embed_urls(e, pattern);
        assert(em == collect_all(es, ef));
        lemma_collect_parts(es, ef, em.unwrap());
        assert forall|k: int| 0 <= k < es.len() implies (#[trigger] embed_urls(es[k], pattern)) is Some && all_in(
            embed_urls(es[k], pattern).unwrap(),
            u,
        ) by {
            assert(ef(es[k]) is Some && all_in(ef(es[k]).unwrap(), em.unwrap()));
            lemma_all_in_trans(ef(es[k]).unwrap(), em.unwrap(), u);
        }
    }
}

/// The candidates of a DiscordChatExporter export: first the guild's icon; then, among
/// them, the URLs of each of its messages.
pub proof fn lemma_export_parts(j: JsonModel, pattern: Seq<char>, u: Seq<Seq<char>>)
    requires
        export_candidates(j, pattern) == Some(u),
    ensures
        j.field("guild"@) matches Some(g) && g.field("iconUrl"@) matches Some(JsonModel::Str(icon)) && u.len() > 0
            && u[0] == icon,
        j.field("messages"@) matches Some(JsonModel::Array(ms)) && forall|i: int| 0 <= i < ms.len() ==> (
        #[trigger] export_message_urls(ms[i], pattern)) is Some && all_in(export_message_urls(ms[i], pattern).unwrap(), u),
{
    let mf = |m: JsonModel| export_message_urls(m, pattern);
    let msgs = list_urls(j, "messages"@, mf);
    lemma_cat_parts(nested_url(j, "guild"@, "iconUrl"@), msgs, u);
    if let Some(JsonModel::Array(ms)) = j.field("messages"@) {
        lemma_collect_parts(ms, mf, msgs.unwrap());
        assert forall|i: int| 0 <= i < ms.len() implies (#[trigger] export_message_urls(ms[i], pattern)) is Some
            && all_in(export_message_urls(ms[i], pattern).unwrap(), u) by {
            assert(mf(ms[i]) is Some && all_in(mf(ms[i]).unwrap(), msgs.unwrap()));
            lemma_all_in_trans(mf(ms[i]).unwrap(), msgs.unwrap(), u);
        }
    }
}

/// With `--parse-websockets`, the candidates of a received gateway event hold all of
/// the event's URLs.
pub proof fn lemma_line_gateway(
    j: JsonModel,
    pattern: Seq<char>,
    endpoint: Seq<char>,
    guild_id: Seq<char>,
    c: Seq<Seq<char>>,
)
    requires
        line_candidates(j, pattern, endpoint, guild_id, true) == Some(c),
        str_field(j, "type"@) == Some("ws"@),
        str_field(j, "direction"@) == Some("recv"@),
    ensures
        j.field("data"@) matches Some(d) && gateway_urls(d, guild_id) matches Some(g) && all_in(g, c),
{
    let events = match j.field("data"@) {
        Some(data) => gateway_urls(data, guild_id),
        None => None,
    };
    let mf = |m: JsonModel| message_urls(m, pattern);
    let messages = match batch_messages(message_data(j, endpoint)) {
        Some(ms) => collect_all(ms, mf),
        None => None,
    };
    assert(cat(events, messages) == Some(c));
    lemma_cat_parts(events, messages, c);
}

} // verus!
