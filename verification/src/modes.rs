//! The four kinds of scrape and what a run over each of them yields: the new URLs,
//! and the URLs known afterwards.

use vstd::prelude::*;
use crate::cli::Args;
use crate::collect::{absorb, absorb_new, add_unignored, all_in, collect_all, collect_each, keep_new, opt_strs, without, RetVal};
use crate::collect::{lemma_all_in_trans, lemma_cat_parts, lemma_collect_parts};
use crate::collect::{fresh, lemma_absorb_distinct, lemma_absorb_fresh, lemma_contains_concat, lemma_fresh_props, lemma_keep_new_unknown};
use crate::discord::{avatar_link, avatar_link_of, batch_messages, embed_urls, embed_urls_of, export_candidates, export_urls};
use crate::discord::{line_candidates, line_urls, message_data, str_field};
use crate::json::{items_model, json_text_model, json_text_parses, lemma_items_model, parse_json, Json, JsonModel};
use crate::pattern::{regex_matches, Pattern};
use crate::text::{decimal, is_line, joined_lines, lemma_stored_entries_roundtrip, push_decimal, stored_entries, str_equal, strs};

verus! {

/// Why a run over a scrape is refused.
#[derive(Debug, PartialEq, Eq, Structural)]
pub enum ExtractError {
    /// `--parse-websockets` was given for a scrape that is not a discard2 one.
    WebsocketsNeedDiscard2,
    /// `--parse-websockets` was given without a server ID.
    GuildIdRequired,
    /// The scrape lacks a part that must be there.
    Malformed,
    /// A text that must be JSON is not.
    BadJson,
}

/// The outcome is the refusal of a text that is not JSON.
pub open spec fn bad_json<T>(r: Result<T, ExtractError>) -> bool {
    match r {
        Err(ExtractError::BadJson) => true,
        _ => false,
    }
}

/// The kinds of scrape.
#[derive(Debug, PartialEq, Eq, Structural)]
pub enum FileType {
    /// A Discord History Tracker database.
    Dht,
    /// A discard2 recording, one JSON exchange per line.
    Discard2,
    /// Plain text.
    Plaintext,
    /// A DiscordChatExporter JSON export.
    Dce,
}

/// The kind of scrape that a name on the command line stands for.
pub open spec fn file_type_named(name: Seq<char>) -> Option<FileType> {
    if name == "dht"@ {
        Some(FileType::Dht)
    } else if name == "discard2"@ {
        Some(FileType::Discard2)
    } else if name == "plaintext"@ {
        Some(FileType::Plaintext)
    } else if name == "dce"@ {
        Some(FileType::Dce)
    } else {
        None
    }
}

/// The kind of scrape that `name` stands for.
pub fn parse_file_type(name: &str) -> (r: Option<FileType>)
    ensures
        r == file_type_named(name@),
{
    if str_equal(name, "dht") {
        Some(FileType::Dht)
    } else if str_equal(name, "discard2") {
        Some(FileType::Discard2)
    } else if str_equal(name, "plaintext") {
        Some(FileType::Plaintext)
    } else if str_equal(name, "dce") {
        Some(FileType::Dce)
    } else {
        None
    }
}

/// The server whose gateway data is read: the given one. Without one (then the gateway
/// data is not read) it is `a`, which names none.
pub open spec fn guild_of(args: Args) -> Seq<char> {
    match args.guild_id {
        Some(g) => g@,
        None => "a"@,
    }
}

/// The refusal, if any, of a run over a scrape of kind `kind`: `--parse-websockets`
/// serves only discard2 recordings, and needs a server ID.
pub open spec fn mode_refusal(kind: FileType, args: Args) -> Option<ExtractError> {
    if !args.use_websockets {
        None
    } else if !(kind is Discard2) {
        Some(ExtractError::WebsocketsNeedDiscard2)
    } else if args.guild_id is None {
        Some(ExtractError::GuildIdRequired)
    } else {
        None
    }
}

/// Refuses a run as `mode_refusal` says, before the scrape is read.
pub fn mode_check(kind: &FileType, args: &Args) -> (r: Result<(), ExtractError>)
    ensures
        r is Ok <==> mode_refusal(*kind, *args) is None,
        r matches Err(e) ==> mode_refusal(*kind, *args) == Some(e),
{
    if !args.use_websockets {
        return Ok(());
    }
    match kind {
        FileType::Discard2 => match discard2_guild_id(args) {
            Ok(_) => Ok(()),
            Err(e) => Err(e),
        },
        _ => Err(ExtractError::WebsocketsNeedDiscard2),
    }
}

/// The server whose gateway data a discard2 run reads, or the refusal of a run with
/// `--parse-websockets` and no server ID.
pub fn discard2_guild_id(args: &Args) -> (r: Result<String, ExtractError>)
    ensures
        r matches Ok(g) ==> g@ == guild_of(*args) && !(args.use_websockets && args.guild_id is None),
        r matches Err(e) ==> e is GuildIdRequired && args.use_websockets && args.guild_id is None,
{
    match &args.guild_id {
        Some(g) => Ok(g.clone()),
        None => {
            if args.use_websockets {
                Err(ExtractError::GuildIdRequired)
            } else {
                Ok("a".to_owned())
            }
        },
    }
}

/// The links in each of `lines`, line after line.
pub open spec fn text_candidates(lines: Seq<Seq<char>>, pattern: Seq<char>) -> Seq<Seq<char>>
    decreases lines.len(),
{
    if lines.len() == 0 {
        Seq::empty()
    } else {
        text_candidates(lines.drop_last(), pattern) + regex_matches(pattern, lines.last())
    }
}

/// The outcome of a run that gathers `cands` (or finds the scrape malformed, when there
/// are none) without recording them as known: the new URLs are those not among `ignores`.
pub open spec fn filtered_run(
    r: Result<RetVal, ExtractError>,
    cands: Option<Seq<Seq<char>>>,
    ignores: Seq<String>,
    urls: Seq<String>,
) -> bool {
    match r {
        Ok(v) => {
            &&& cands is Some
            &&& strs(v.urls@) == strs(urls) + keep_new(strs(ignores), cands.unwrap())
            &&& v.ignores@ == ignores
        },
        Err(e) => e is Malformed && cands is None,
    }
}

/// Every candidate that is not known is kept.
pub proof fn lemma_keep_new_complete(known: Seq<Seq<char>>, cands: Seq<Seq<char>>)
    ensures
        forall|k: int| 0 <= k < cands.len() && !known.contains(#[trigger] cands[k]) ==> keep_new(known, cands).contains(
            cands[k],
        ),
    decreases cands.len(),
{
    if cands.len() > 0 {
        let prev = cands.drop_last();
        lemma_keep_new_complete(known, prev);
        let rest = keep_new(known, prev);
        assert forall|k: int| 0 <= k < cands.len() && !known.contains(#[trigger] cands[k]) implies keep_new(
            known,
            cands,
        ).contains(cands[k]) by {
            if k < cands.len() - 1 {
                assert(cands[k] == prev[k]);
                assert(rest.contains(prev[k]));
                let w = choose|w: int| 0 <= w < rest.len() && rest[w] == prev[k];
                assert(keep_new(known, cands)[w] == rest[w]);
            } else {
                assert(keep_new(known, cands)[rest.len() as int] == cands[k]);
            }
        }
    }
}

/// A run over a DiscordChatExporter export, a Discord History Tracker database or plain
/// text adds every candidate of the scrape that is not to be ignored.
pub proof fn lemma_filtered_run_takes_unignored(
    r: Result<RetVal, ExtractError>,
    cands: Seq<Seq<char>>,
    ignores: Seq<String>,
    urls: Seq<String>,
)
    requires
        filtered_run(r, Some(cands), ignores, urls),
    ensures
        r matches Ok(v) && forall|k: int| 0 <= k < cands.len() && !strs(ignores).contains(#[trigger] cands[k])
            ==> strs(v.urls@).skip(urls.len() as int).contains(cands[k]),
{
    let v = r.unwrap();
    lemma_keep_new_complete(strs(ignores), cands);
    let kept = keep_new(strs(ignores), cands);
    assert(strs(v.urls@).skip(urls.len() as int) =~= kept);
}

/// The links of plain text hold every link of each of its lines.
pub proof fn lemma_text_candidates_lines(lines: Seq<Seq<char>>, pattern: Seq<char>)
    ensures
        forall|i: int| 0 <= i < lines.len() ==> all_in(
            regex_matches(pattern, #[trigger] lines[i]),
            text_candidates(lines, pattern),
        ),
    decreases lines.len(),
{
    if lines.len() > 0 {
        let prev = lines.drop_last();
        lemma_text_candidates_lines(prev, pattern);
        let a = text_candidates(prev, pattern);
        let b = regex_matches(pattern, lines.last());
        lemma_cat_parts(Some(a), Some(b), a + b);
        assert forall|i: int| 0 <= i < lines.len() implies all_in(
            regex_matches(pattern, #[trigger] lines[i]),
            text_candidates(lines, pattern),
        ) by {
            if i < lines.len() - 1 {
                assert(lines[i] == prev[i]);
                lemma_all_in_trans(regex_matches(pattern, prev[i]), a, a + b);
            } else {
                assert(lines[i] == lines.last());
            }
        }
    }
}

/// The avatars of the users hold the avatar link of each user that has an avatar.
pub proof fn lemma_user_avatars(users: Seq<User>)
    ensures
        forall|i: int| 0 <= i < users.len() ==> ((#[trigger] users[i]).avatar_id matches Some(av)
            ==> user_avatars(users).contains(
            "https://cdn.discordapp.com/avatars/"@ + decimal(users[i].id as nat) + "/"@ + av@ + ".webp?size=4096"@,
        )),
    decreases users.len(),
{
    if users.len() > 0 {
        let prev = users.drop_last();
        lemma_user_avatars(prev);
        let rest = user_avatars(prev);
        let all = user_avatars(users);
        assert(forall|k: int| 0 <= k < rest.len() ==> all[k] == rest[k]);
        assert forall|i: int| 0 <= i < users.len() implies ((#[trigger] users[i]).avatar_id matches Some(av)
            ==> all.contains(
            "https://cdn.discordapp.com/avatars/"@ + decimal(users[i].id as nat) + "/"@ + av@ + ".webp?size=4096"@,
        )) by {
            if let Some(av) = users[i].avatar_id {
                let link = "https://cdn.discordapp.com/avatars/"@ + decimal(users[i].id as nat) + "/"@ + av@
                    + ".webp?size=4096"@;
                if i < users.len() - 1 {
                    assert(users[i] == prev[i]);
                    assert(rest.contains(link));
                    let w = choose|w: int| 0 <= w < rest.len() && rest[w] == link;
                    assert(all[w] == rest[w]);
                } else {
                    assert(users[i] == users.last());
                    assert(all[rest.len() as int] == link);
                }
            }
        }
    }
}

/// The candidates of a Discord History Tracker database: first its attachments, in
/// order; then, among them, the avatar of each user that has one, every link of each
/// message, and the URLs of each embed.
pub proof fn lemma_database_parts(
    attachments: Seq<Seq<char>>,
    users: Seq<User>,
    messages: Seq<Seq<char>>,
    embeds: Seq<JsonModel>,
    pattern: Seq<char>,
    u: Seq<Seq<char>>,
)
    requires
        database_candidates(attachments, users, messages, embeds, pattern) == Some(u),
    ensures
        attachments.len() <= u.len() && u.subrange(0, attachments.len() as int) == attachments,
        forall|i: int| 0 <= i < users.len() ==> ((#[trigger] users[i]).avatar_id matches Some(av) ==> u.contains(
            "https://cdn.discordapp.com/avatars/"@ + decimal(users[i].id as nat) + "/"@ + av@ + ".webp?size=4096"@,
        )),
        forall|i: int| 0 <= i < messages.len() ==> all_in(regex_matches(pattern, #[trigger] messages[i]), u),
        forall|i: int| 0 <= i < embeds.len() ==> (#[trigger] embed_urls(embeds[i], pattern)) is Some && all_in(
            embed_urls(embeds[i], pattern).unwrap(),
            u,
        ),
{
    let ef = |e: JsonModel| embed_urls(e, pattern);
    let found = collect_all(embeds, ef).unwrap();
    let ua = user_avatars(users);
    let tc = text_candidates(messages, pattern);
    let a1 = attachments + ua;
    let a2 = a1 + tc;
    assert(u == a2 + found);
    lemma_cat_parts(Some(a2), Some(found), u);
    lemma_cat_parts(Some(a1), Some(tc), a2);
    lemma_cat_parts(Some(attachments), Some(ua), a1);
    lemma_all_in_trans(a1, a2, u);
    lemma_all_in_trans(ua, a1, u);
    lemma_all_in_trans(tc, a2, u);
    assert(u.subrange(0, attachments.len() as int) =~= attachments);
    lemma_user_avatars(users);
    assert forall|i: int| 0 <= i < users.len() implies ((#[trigger] users[i]).avatar_id matches Some(av) ==> u.contains(
        "https://cdn.discordapp.com/avatars/"@ + decimal(users[i].id as nat) + "/"@ + av@ + ".webp?size=4096"@,
    )) by {
        if let Some(av) = users[i].avatar_id {
            let link = "https://cdn.discordapp.com/avatars/"@ + decimal(users[i].id as nat) + "/"@ + av@ + ".webp?size=4096"@;
            assert(ua.contains(link));
            let w = choose|w: int| 0 <= w < ua.len() && ua[w] == link;
            assert(u.contains(ua[w]));
        }
    }
    lemma_text_candidates_lines(messages, pattern);
    assert forall|i: int| 0 <= i < messages.len() implies all_in(regex_matches(pattern, #[trigger] messages[i]), u) by {
        lemma_all_in_trans(regex_matches(pattern, messages[i]), tc, u);
    }
    lemma_collect_parts(embeds, ef, found);
    assert forall|i: int| 0 <= i < embeds.len() implies (#[trigger] embed_urls(embeds[i], pattern)) is Some && all_in(
        embed_urls(embeds[i], pattern).unwrap(),
        u,
    ) by {
        assert(ef(embeds[i]) is Some && all_in(ef(embeds[i]).unwrap(), found));
        lemma_all_in_trans(ef(embeds[i]).unwrap(), found, u);
    }
}

/// A run over a DiscordChatExporter export, a Discord History Tracker database or plain
/// text adds to the URLs only candidates of the scrape, and none that is to be ignored.
pub proof fn lemma_filtered_run_skips_ignored(
    r: Result<RetVal, ExtractError>,
    cands: Option<Seq<Seq<char>>>,
    ignores: Seq<String>,
    urls: Seq<String>,
)
    requires
        filtered_run(r, cands, ignores, urls),
    ensures
        r matches Ok(v) ==> {
            &&& strs(v.urls@).take(urls.len() as int) == strs(urls)
            &&& forall|k: int| urls.len() <= k < v.urls@.len() ==> {
                &&& !strs(ignores).contains(#[trigger] strs(v.urls@)[k])
                &&& cands.unwrap().contains(strs(v.urls@)[k])
            }
        },
{
    if let Ok(v) = r {
        let c = cands.unwrap();
        lemma_keep_new_unknown(strs(ignores), c);
        let kept = keep_new(strs(ignores), c);
        assert(strs(v.urls@) == strs(urls) + kept);
        assert(strs(urls).len() == urls.len());
        assert(strs(v.urls@).take(urls.len() as int) =~= strs(urls));
        assert forall|k: int| urls.len() <= k < v.urls@.len() implies {
            &&& !strs(ignores).contains(#[trigger] strs(v.urls@)[k])
            &&& c.contains(strs(v.urls@)[k])
        } by {
            assert((strs(urls) + kept)[k] == kept[k - urls.len()]);
        }
    }
}

/// Gathers from one line of text the links that are not among the known URLs.
pub fn plain_text_line(state: &mut RetVal, line: &str, pattern: &Pattern)
    ensures
        strs(final(state).urls@) == strs(old(state).urls@) + keep_new(
            strs(old(state).ignores@),
            regex_matches(pattern@, line@),
        ),
        final(state).ignores@ == old(state).ignores@,
{
    let found = pattern.find_all(line);
    add_unignored(&mut state.urls, &state.ignores, found);
}

proof fn lemma_keep_new_concat(known: Seq<Seq<char>>, a: Seq<Seq<char>>, b: Seq<Seq<char>>)
    ensures
        keep_new(known, a + b) == keep_new(known, a) + keep_new(known, b),
    decreases b.len(),
{
    if b.len() == 0 {
        assert(a + b =~= a);
        assert(keep_new(known, a) + keep_new(known, b) =~= keep_new(known, a));
    } else {
        lemma_keep_new_concat(known, a, b.drop_last());
        assert((a + b).drop_last() =~= a + b.drop_last());
        assert((a + b).last() == b.last());
        if known.contains(b.last()) {
        } else {
            assert(keep_new(known, a + b) =~= keep_new(known, a) + keep_new(known, b));
        }
    }
}

/// A run over plain text: the links in its lines that are not among `ignores`.
pub fn plain_text(
    lines: &Vec<String>,
    ignores: Vec<String>,
    urls: Vec<String>,
    pattern: &Pattern,
    arguments: &Args,
) -> (r: Result<RetVal, ExtractError>)
    requires
        !arguments.use_websockets,
    ensures
        filtered_run(r, Some(text_candidates(strs(lines@), pattern@)), ignores@, urls@),
{
    let ghost start = strs(urls@);
    let ghost known = strs(ignores@);
    let mut state = RetVal { urls, ignores };
    let n = lines.len();
    assert(strs(lines@.take(0)) =~= Seq::<Seq<char>>::empty());
    assert(start + Seq::empty() =~= start);
    for i in 0..n
        invariant
            n == lines@.len(),
            strs(state.ignores@) == known,
            state.ignores@ == ignores@,
            strs(state.urls@) == start + keep_new(known, text_candidates(strs(lines@.take(i as int)), pattern@)),
    {
        let ghost before = strs(state.urls@);
        let ghost prev = text_candidates(strs(lines@.take(i as int)), pattern@);
        plain_text_line(&mut state, lines[i].as_str(), pattern);
        assert(strs(lines@.take(i + 1)).drop_last() =~= strs(lines@.take(i as int)));
        assert(strs(lines@.take(i + 1)).last() == lines@[i as int]@);
        proof {
            lemma_keep_new_concat(known, prev, regex_matches(pattern@, lines@[i as int]@));
        }
        assert(strs(state.urls@) =~= start + keep_new(known, text_candidates(strs(lines@.take(i + 1)), pattern@)));
    }
    assert(lines@.take(n as int) =~= lines@);
    Ok(state)
}

/// A run over a DiscordChatExporter export: the URLs of the export that are not among
/// `ignores`.
pub fn dce(
    json: &Json,
    ignores: Vec<String>,
    urls: Vec<String>,
    pattern: &Pattern,
    arguments: &Args,
) -> (r: Result<RetVal, ExtractError>)
    requires
        !arguments.use_websockets,
    ensures
        filtered_run(r, export_candidates(json.model(), pattern@), ignores@, urls@),
{
    match export_urls(json, pattern) {
        Some(found) => {
            let mut urls = urls;
            add_unignored(&mut urls, &ignores, found);
            Ok(RetVal { urls, ignores })
        },
        None => Err(ExtractError::Malformed),
    }
}


/// A user of a Discord History Tracker database: its ID and, when it has one, its avatar.
pub struct User {
    pub id: u64,
    pub avatar_id: Option<String>,
}

/// The avatars of the users that have one, in order.
pub open spec fn user_avatars(users: Seq<User>) -> Seq<Seq<char>>
    decreases users.len(),
{
    if users.len() == 0 {
        Seq::empty()
    } else {
        let rest = user_avatars(users.drop_last());
        match users.last().avatar_id {
            Some(avatar) => rest.push(avatar_link(decimal(users.last().id as nat), avatar@)),
            None => rest,
        }
    }
}

/// The URL candidates of a Discord History Tracker database: the attachments, the
/// users' avatars, the links in the messages, the URLs of the embeds.
pub open spec fn database_candidates(
    attachments: Seq<Seq<char>>,
    users: Seq<User>,
    messages: Seq<Seq<char>>,
    embeds: Seq<JsonModel>,
    pattern: Seq<char>,
) -> Option<Seq<Seq<char>>> {
    match collect_all(embeds, |e: JsonModel| embed_urls(e, pattern)) {
        Some(found) => Some(attachments + user_avatars(users) + text_candidates(messages, pattern) + found),
        None => None,
    }
}

fn user_avatar_urls(users: &Vec<User>) -> (r: Vec<String>)
    ensures
        strs(r@) == user_avatars(users@),
{
    let mut out: Vec<String> = Vec::new();
    let n = users.len();
    assert(users@.take(0) =~= Seq::<User>::empty());
    for i in 0..n
        invariant
            n == users@.len(),
            strs(out@) == user_avatars(users@.take(i as int)),
    {
        let user = &users[i];
        assert(users@.take(i + 1).drop_last() =~= users@.take(i as int));
        assert(users@.take(i + 1).last() == users@[i as int]);
        match &user.avatar_id {
            Some(avatar) => {
                let mut id = String::new();
                push_decimal(&mut id, user.id);
                assert(id@ =~= decimal(user.id as nat));
                let ghost before = strs(out@);
                out.push(avatar_link_of(id.as_str(), avatar.as_str()));
                assert(strs(out@) =~= before.push(avatar_link(decimal(user.id as nat), avatar@)));
            },
            None => {},
        }
    }
    assert(users@.take(n as int) =~= users@);
    out
}

fn text_urls(lines: &Vec<String>, pattern: &Pattern) -> (r: Vec<String>)
    ensures
        strs(r@) == text_candidates(strs(lines@), pattern@),
{
    let mut out: Vec<String> = Vec::new();
    let n = lines.len();
    assert(strs(lines@.take(0)) =~= Seq::<Seq<char>>::empty());
    for i in 0..n
        invariant
            n == lines@.len(),
            strs(out@) == text_candidates(strs(lines@.take(i as int)), pattern@),
    {
        let mut found = pattern.find_all(lines[i].as_str());
        let ghost before = strs(out@);
        let ghost added = strs(found@);
        out.append(&mut found);
        assert(strs(lines@.take(i + 1)).drop_last() =~= strs(lines@.take(i as int)));
        assert(strs(lines@.take(i + 1)).last() == lines@[i as int]@);
        assert(strs(out@) =~= before + added);
    }
    assert(lines@.take(n as int) =~= lines@);
    out
}

/// A run over a DiscordChatExporter export given as text: refuses a text that is not
/// JSON; otherwise the run over the JSON value it holds, as `dce` says.
pub fn dce_text(
    text: &str,
    ignores: Vec<String>,
    urls: Vec<String>,
    pattern: &Pattern,
    arguments: &Args,
) -> (r: Result<RetVal, ExtractError>)
    requires
        !arguments.use_websockets,
    ensures
        bad_json(r) <==> !json_text_parses(text@),
        json_text_parses(text@) ==> filtered_run(
            r,
            export_candidates(json_text_model(text@), pattern@),
            ignores@,
            urls@,
        ),
{
    match parse_json(text) {
        Some(json) => dce(&json, ignores, urls, pattern, arguments),
        None => Err(ExtractError::BadJson),
    }
}

/// A run over a Discord History Tracker database, given the URLs of its attachments, its
/// users, the texts of its messages and its embeds: the candidates not among `ignores`.
pub fn sql(
    attachments: Vec<String>,
    users: &Vec<User>,
    messages: &Vec<String>,
    embeds: &Vec<Json>,
    ignores: Vec<String>,
    urls: Vec<String>,
    pattern: &Pattern,
    arguments: &Args,
) -> (r: Result<RetVal, ExtractError>)
    requires
        !arguments.use_websockets,
    ensures
        filtered_run(
            r,
            database_candidates(strs(attachments@), users@, strs(messages@), items_model(embeds@), pattern@),
            ignores@,
            urls@,
        ),
{
    let found = collect_each(
        embeds,
        (|e: &Json| -> (out: Option<Vec<String>>)
            ensures
                opt_strs(out) == embed_urls(e.model(), pattern@),
            { embed_urls_of(e, pattern) }),
        Ghost(|e: JsonModel| embed_urls(e, pattern@)),
    );
    match found {
        Some(mut found) => {
            let mut cands = attachments;
            let ghost a = strs(cands@);
            let mut avatars = user_avatar_urls(users);
            let ghost b = strs(avatars@);
            let mut texts = text_urls(messages, pattern);
            let ghost c = strs(texts@);
            let ghost d = strs(found@);
            cands.append(&mut avatars);
            cands.append(&mut texts);
            cands.append(&mut found);
            assert(strs(cands@) =~= a + b + c + d);
            let mut urls = urls;
            add_unignored(&mut urls, &ignores, cands);
            Ok(RetVal { urls, ignores })
        },
        None => Err(ExtractError::Malformed),
    }
}

/// What a discard2 run over `lines` leaves as (new URLs, known URLs), starting from
/// `urls` and `known`: each line's candidates are recorded in turn; `None` when a line
/// is malformed.
pub open spec fn discard2_run(
    lines: Seq<JsonModel>,
    urls: Seq<Seq<char>>,
    known: Seq<Seq<char>>,
    pattern: Seq<char>,
    endpoint: Seq<char>,
    guild_id: Seq<char>,
    use_websockets: bool,
) -> Option<(Seq<Seq<char>>, Seq<Seq<char>>)>
    decreases lines.len(),
{
    if lines.len() == 0 {
        Some((urls, known))
    } else {
        match discard2_run(lines.drop_last(), urls, known, pattern, endpoint, guild_id, use_websockets) {
            None => None,
            Some(state) => match line_candidates(lines.last(), pattern, endpoint, guild_id, use_websockets) {
                Some(cands) => Some(absorb(state.0, state.1, cands)),
                None => None,
            },
        }
    }
}

/// What handling one discard2 line `json` does to the state `before`, leaving `after`:
/// its candidates are recorded in turn, each one that is not yet known becoming a new
/// URL and a known one. A malformed line changes nothing.
pub open spec fn line_outcome(
    r: Result<(), ExtractError>,
    json: JsonModel,
    before: RetVal,
    after: RetVal,
    pattern: Seq<char>,
    endpoint: Seq<char>,
    guild_id: Seq<char>,
    use_websockets: bool,
) -> bool {
    match r {
        Ok(()) => line_candidates(json, pattern, endpoint, guild_id, use_websockets) matches Some(cands)
            && (strs(after.urls@), strs(after.ignores@)) == absorb(strs(before.urls@), strs(before.ignores@), cands),
        Err(e) => e is Malformed && line_candidates(json, pattern, endpoint, guild_id, use_websockets) is None
            && after == before,
    }
}

/// Handles one line of a discard2 recording, as `line_outcome` says.
pub fn discard2_line(
    state: &mut RetVal,
    json: &Json,
    pattern: &Pattern,
    endpoint: &Pattern,
    guild_id: &str,
    use_websockets: bool,
) -> (r: Result<(), ExtractError>)
    ensures
        line_outcome(r, json.model(), *old(state), *final(state), pattern@, endpoint@, guild_id@, use_websockets),
{
    match line_urls(json, pattern, endpoint, guild_id, use_websockets) {
        Some(cands) => {
            absorb_new(state, cands);
            Ok(())
        },
        None => Err(ExtractError::Malformed),
    }
}

/// Handles one line of a discard2 recording given as text: refuses it, changing
/// nothing, when it is not JSON; otherwise handles the JSON value it holds, as
/// `line_outcome` says.
pub fn discard2_text_line(
    state: &mut RetVal,
    line: &str,
    pattern: &Pattern,
    endpoint: &Pattern,
    guild_id: &str,
    use_websockets: bool,
) -> (r: Result<(), ExtractError>)
    ensures
        bad_json(r) <==> !json_text_parses(line@),
        bad_json(r) ==> *final(state) == *old(state),
        json_text_parses(line@) ==> line_outcome(
            r,
            json_text_model(line@),
            *old(state),
            *final(state),
            pattern@,
            endpoint@,
            guild_id@,
            use_websockets,
        ),
{
    match parse_json(line) {
        Some(json) => discard2_line(state, &json, pattern, endpoint, guild_id, use_websockets),
        None => Err(ExtractError::BadJson),
    }
}

proof fn lemma_discard2_run_missing(
    lines: Seq<JsonModel>,
    urls: Seq<Seq<char>>,
    known: Seq<Seq<char>>,
    pattern: Seq<char>,
    endpoint: Seq<char>,
    guild_id: Seq<char>,
    use_websockets: bool,
    i: int,
)
    requires
        0 <= i <= lines.len(),
        discard2_run(lines.take(i), urls, known, pattern, endpoint, guild_id, use_websockets) is None,
    ensures
        discard2_run(lines, urls, known, pattern, endpoint, guild_id, use_websockets) is None,
    decreases lines.len(),
{
    if i == lines.len() {
        assert(lines.take(i) =~= lines);
    } else {
        let prev = lines.drop_last();
        assert(prev.take(i) =~= lines.take(i));
        lemma_discard2_run_missing(prev, urls, known, pattern, endpoint, guild_id, use_websockets, i);
    }
}

/// A run over a discard2 recording: each line's candidates are recorded in turn, as
/// `discard2_run` says.
pub fn discard2_jsonl(
    lines: &Vec<Json>,
    ignores: Vec<String>,
    urls: Vec<String>,
    pattern: &Pattern,
    endpoint: &Pattern,
    arguments: &Args,
) -> (r: Result<RetVal, ExtractError>)
    ensures
        match r {
            Ok(v) => {
                &&& !(arguments.use_websockets && arguments.guild_id is None)
                &&& discard2_run(
                    items_model(lines@),
                    strs(urls@),
                    strs(ignores@),
                    pattern@,
                    endpoint@,
                    guild_of(*arguments),
                    arguments.use_websockets,
                ) == Some((strs(v.urls@), strs(v.ignores@)))
            },
            Err(e) => if arguments.use_websockets && arguments.guild_id is None {
                e is GuildIdRequired
            } else {
                &&& e is Malformed
                &&& discard2_run(
                    items_model(lines@),
                    strs(urls@),
                    strs(ignores@),
                    pattern@,
                    endpoint@,
                    guild_of(*arguments),
                    arguments.use_websockets,
                ) is None
            },
        },
{
    let guild = match discard2_guild_id(arguments) {
        Ok(g) => g,
        Err(e) => {
            return Err(e);
        },
    };
    let use_websockets = arguments.use_websockets;
    let ghost u0 = strs(urls@);
    let ghost k0 = strs(ignores@);
    let mut state = RetVal { urls, ignores };
    let ghost models = items_model(lines@);
    proof {
        lemma_items_model(lines@);
    }
    let n = lines.len();
    assert(models.take(0) =~= Seq::<JsonModel>::empty());
    for i in 0..n
        invariant
            n == lines@.len(),
            models == items_model(lines@),
            models.len() == n,
            forall|k: int| 0 <= k < n ==> #[trigger] models[k] == lines@[k].model(),
            guild@ == guild_of(*arguments),
            use_websockets == arguments.use_websockets,
            !(use_websockets && arguments.guild_id is None),
            u0 == strs(urls@),
            k0 == strs(ignores@),
            discard2_run(models.take(i as int), u0, k0, pattern@, endpoint@, guild@, use_websockets) == Some(
                (strs(state.urls@), strs(state.ignores@)),
            ),
    {
        assert(models.take(i + 1).drop_last() =~= models.take(i as int));
        assert(models.take(i + 1).last() == lines@[i as int].model());
        match discard2_line(&mut state, &lines[i], pattern, endpoint, guild.as_str(), use_websockets) {
            Ok(()) => {},
            Err(e) => {
                proof {
                    lemma_discard2_run_missing(models, u0, k0, pattern@, endpoint@, guild@, use_websockets, i + 1);
                }
                return Err(e);
            },
        }
    }
    assert(models.take(n as int) =~= models);
    Ok(state)
}

/// A recorded exchange that hands on no message: it has a `type`, and no message comes
/// of it (it is not an answered `GET` of the messages endpoint, or its data is an empty
/// array).
pub open spec fn quiet_line(j: JsonModel, endpoint: Seq<char>) -> bool {
    str_field(j, "type"@) is Some && batch_messages(message_data(j, endpoint)) == Some(Seq::<JsonModel>::empty())
}

/// Without `--parse-websockets`, removing from a discard2 recording the exchanges that
/// hand on no message changes neither the new URLs nor the known ones that a run leaves.
pub proof fn lemma_discard2_quiet_lines(
    lines: Seq<JsonModel>,
    urls: Seq<Seq<char>>,
    known: Seq<Seq<char>>,
    pattern: Seq<char>,
    endpoint: Seq<char>,
    guild_id: Seq<char>,
)
    ensures
        discard2_run(without(lines, |j: JsonModel| quiet_line(j, endpoint)), urls, known, pattern, endpoint, guild_id, false)
            == discard2_run(lines, urls, known, pattern, endpoint, guild_id, false),
    decreases lines.len(),
{
    if lines.len() > 0 {
        let drop = |j: JsonModel| quiet_line(j, endpoint);
        let prev = lines.drop_last();
        let x = lines.last();
        lemma_discard2_quiet_lines(prev, urls, known, pattern, endpoint, guild_id);
        let w = without(prev, drop);
        if drop(x) {
            assert(Seq::<Seq<char>>::empty() + Seq::<Seq<char>>::empty() =~= Seq::<Seq<char>>::empty());
            assert(line_candidates(x, pattern, endpoint, guild_id, false) == Some(Seq::<Seq<char>>::empty()));
        } else {
            assert(w.push(x).drop_last() =~= w);
            assert(w.push(x).last() == x);
        }
    }
}

proof fn lemma_absorb_extends(
    st: (Seq<Seq<char>>, Seq<Seq<char>>),
    cands: Seq<Seq<char>>,
    urls: Seq<Seq<char>>,
    known: Seq<Seq<char>>,
)
    requires
        st.0.no_duplicates(),
        forall|k: int| 0 <= k < st.0.len() ==> st.1.contains(#[trigger] st.0[k]),
        st.0.len() >= urls.len(),
        st.1.len() >= known.len(),
        st.0.take(urls.len() as int) == urls,
        st.1.take(known.len() as int) == known,
        forall|k: int| urls.len() <= k < st.0.len() ==> !known.contains(#[trigger] st.0[k]),
    ensures
        ({
            let out = absorb(st.0, st.1, cands);
            &&& out.0.no_duplicates()
            &&& forall|k: int| 0 <= k < out.0.len() ==> out.1.contains(#[trigger] out.0[k])
            &&& out.0.len() >= urls.len()
            &&& out.1.len() >= known.len()
            &&& out.0.take(urls.len() as int) == urls
            &&& out.1.take(known.len() as int) == known
            &&& forall|k: int| urls.len() <= k < out.0.len() ==> !known.contains(#[trigger] out.0[k])
        }),
{
    lemma_absorb_distinct(st.0, st.1, cands);
    lemma_absorb_fresh(st.0, st.1, cands);
    let out = absorb(st.0, st.1, cands);
    let f = fresh(st.1, cands);
    assert(out.0 == st.0 + f);
    assert(out.1 == st.1 + f);
    assert(out.0.take(urls.len() as int) =~= st.0.take(urls.len() as int));
    assert(out.1.take(known.len() as int) =~= st.1.take(known.len() as int));
    assert forall|k: int| urls.len() <= k < out.0.len() implies !known.contains(#[trigger] out.0[k]) by {
        if k < st.0.len() {
            assert(out.0[k] == st.0[k]);
        } else {
            assert(!st.1.contains(out.0[k]));
            if known.contains(out.0[k]) {
                let w = choose|w: int| 0 <= w < known.len() && known[w] == out.0[k];
                assert(st.1.take(known.len() as int)[w] == known[w]);
                assert(st.1[w] == known[w]);
            }
        }
    }
}

/// A discard2 run never extracts a URL twice, nor one that was known when it started;
/// every URL it extracts is known afterwards, and the URLs known before stay known.
pub proof fn lemma_discard2_distinct(
    lines: Seq<JsonModel>,
    urls: Seq<Seq<char>>,
    known: Seq<Seq<char>>,
    pattern: Seq<char>,
    endpoint: Seq<char>,
    guild_id: Seq<char>,
    use_websockets: bool,
)
    requires
        urls.no_duplicates(),
        forall|k: int| 0 <= k < urls.len() ==> known.contains(#[trigger] urls[k]),
    ensures
        discard2_run(lines, urls, known, pattern, endpoint, guild_id, use_websockets) matches Some(out) ==> {
            &&& out.0.no_duplicates()
            &&& forall|k: int| 0 <= k < out.0.len() ==> out.1.contains(#[trigger] out.0[k])
            &&& out.0.len() >= urls.len()
            &&& out.1.len() >= known.len()
            &&& out.0.take(urls.len() as int) == urls
            &&& out.1.take(known.len() as int) == known
            &&& forall|k: int| urls.len() <= k < out.0.len() ==> !known.contains(#[trigger] out.0[k])
        },
    decreases lines.len(),
{
    if lines.len() == 0 {
        assert(urls.take(urls.len() as int) =~= urls);
        assert(known.take(known.len() as int) =~= known);
    } else {
        let prev = lines.drop_last();
        lemma_discard2_distinct(prev, urls, known, pattern, endpoint, guild_id, use_websockets);
        match discard2_run(prev, urls, known, pattern, endpoint, guild_id, use_websockets) {
            None => {},
            Some(st) => match line_candidates(lines.last(), pattern, endpoint, guild_id, use_websockets) {
                None => {},
                Some(cands) => {
                    lemma_absorb_extends(st, cands, urls, known);
                },
            },
        }
    }
}

/// Whatever URLs a discard2 run starts from, it appends the same new URLs to them and to
/// the known ones; the new URLs are distinct, and none of them was known at the start.
pub proof fn lemma_discard2_run_fresh(
    lines: Seq<JsonModel>,
    urls: Seq<Seq<char>>,
    known: Seq<Seq<char>>,
    pattern: Seq<char>,
    endpoint: Seq<char>,
    guild_id: Seq<char>,
    use_websockets: bool,
)
    ensures
        discard2_run(lines, urls, known, pattern, endpoint, guild_id, use_websockets) matches Some(out) ==> {
            &&& out.0.len() >= urls.len()
            &&& out.0 == urls + out.0.skip(urls.len() as int)
            &&& out.1 == known + out.0.skip(urls.len() as int)
            &&& out.0.skip(urls.len() as int).no_duplicates()
            &&& forall|k: int| 0 <= k < out.0.skip(urls.len() as int).len() ==>
                !known.contains(#[trigger] out.0.skip(urls.len() as int)[k])
        },
    decreases lines.len(),
{
    if lines.len() == 0 {
        assert(urls.skip(urls.len() as int) =~= Seq::<Seq<char>>::empty());
        assert(urls + Seq::<Seq<char>>::empty() =~= urls);
        assert(known + Seq::<Seq<char>>::empty() =~= known);
    } else {
        let prev = lines.drop_last();
        lemma_discard2_run_fresh(prev, urls, known, pattern, endpoint, guild_id, use_websockets);
        match discard2_run(prev, urls, known, pattern, endpoint, guild_id, use_websockets) {
            None => {},
            Some(st) => match line_candidates(lines.last(), pattern, endpoint, guild_id, use_websockets) {
                None => {},
                Some(cands) => {
                    let n = st.0.skip(urls.len() as int);
                    lemma_absorb_fresh(st.0, st.1, cands);
                    lemma_fresh_props(st.1, cands);
                    let f = fresh(st.1, cands);
                    let out = absorb(st.0, st.1, cands);
                    let m = n + f;
                    assert(out.0 =~= urls + m);
                    assert(out.0.skip(urls.len() as int) =~= m);
                    assert(out.1 =~= known + m);
                    assert forall|i: int, j: int| 0 <= i < m.len() && 0 <= j < m.len() && i != j implies m[i] != m[j] by {
                        if i < n.len() && j < n.len() {
                            assert(m[i] == n[i] && m[j] == n[j]);
                        } else if i < n.len() {
                            assert(m[j] == f[j - n.len()]);
                            assert(m[i] == n[i]);
                            lemma_contains_concat(known, n, n[i]);
                            assert(n.contains(n[i]));
                        } else if j < n.len() {
                            assert(m[i] == f[i - n.len()]);
                            assert(m[j] == n[j]);
                            lemma_contains_concat(known, n, n[j]);
                            assert(n.contains(n[j]));
                        } else {
                            assert(m[i] == f[i - n.len()] && m[j] == f[j - n.len()]);
                        }
                    }
                    assert forall|k: int| 0 <= k < m.len() implies !known.contains(#[trigger] m[k]) by {
                        if k < n.len() {
                            assert(m[k] == n[k]);
                        } else {
                            assert(m[k] == f[k - n.len()]);
                            lemma_contains_concat(known, n, m[k]);
                        }
                    }
                },
            },
        }
    }
}

proof fn lemma_absorb_known(urls: Seq<Seq<char>>, known: Seq<Seq<char>>, cands: Seq<Seq<char>>)
    ensures
        all_in(cands, absorb(urls, known, cands).1),
        all_in(known, absorb(urls, known, cands).1),
    decreases cands.len(),
{
    if cands.len() > 0 {
        let prev = cands.drop_last();
        lemma_absorb_known(urls, known, prev);
        let p = absorb(urls, known, prev);
        let r = absorb(urls, known, cands);
        let c = cands.last();
        assert(all_in(p.1, r.1)) by {
            assert forall|k: int| 0 <= k < p.1.len() implies r.1.contains(#[trigger] p.1[k]) by {
                assert(r.1[k] == p.1[k]);
            }
        }
        lemma_all_in_trans(known, p.1, r.1);
        assert forall|k: int| 0 <= k < cands.len() implies r.1.contains(#[trigger] cands[k]) by {
            if k < cands.len() - 1 {
                assert(cands[k] == prev[k]);
                assert(p.1.contains(prev[k]));
                let w = choose|w: int| 0 <= w < p.1.len() && p.1[w] == prev[k];
                assert(r.1[w] == p.1[w]);
            } else if !p.1.contains(c) {
                assert(r.1[r.1.len() - 1] == c);
            }
        }
    }
}

proof fn lemma_discard2_run_known(
    lines: Seq<JsonModel>,
    urls: Seq<Seq<char>>,
    known: Seq<Seq<char>>,
    pattern: Seq<char>,
    endpoint: Seq<char>,
    guild_id: Seq<char>,
    use_websockets: bool,
)
    ensures
        discard2_run(lines, urls, known, pattern, endpoint, guild_id, use_websockets) matches Some(out) ==> (all_in(
            known,
            out.1,
        ) && forall|i: int| 0 <= i < lines.len() ==> (#[trigger] line_candidates(
            lines[i],
            pattern,
            endpoint,
            guild_id,
            use_websockets,
        )) is Some && all_in(line_candidates(lines[i], pattern, endpoint, guild_id, use_websockets).unwrap(), out.1)),
    decreases lines.len(),
{
    if lines.len() > 0 {
        let prev = lines.drop_last();
        lemma_discard2_run_known(prev, urls, known, pattern, endpoint, guild_id, use_websockets);
        if let Some(st) = discard2_run(prev, urls, known, pattern, endpoint, guild_id, use_websockets) {
            if let Some(cands) = line_candidates(lines.last(), pattern, endpoint, guild_id, use_websockets) {
                let out = absorb(st.0, st.1, cands);
                lemma_absorb_known(st.0, st.1, cands);
                lemma_all_in_trans(known, st.1, out.1);
                assert forall|i: int| 0 <= i < lines.len() implies (#[trigger] line_candidates(
                    lines[i],
                    pattern,
                    endpoint,
                    guild_id,
                    use_websockets,
                )) is Some && all_in(line_candidates(lines[i], pattern, endpoint, guild_id, use_websockets).unwrap(), out.1) by {
                    if i < lines.len() - 1 {
                        assert(lines[i] == prev[i]);
                        assert(line_candidates(prev[i], pattern, endpoint, guild_id, use_websockets) is Some);
                        lemma_all_in_trans(
                            line_candidates(lines[i], pattern, endpoint, guild_id, use_websockets).unwrap(),
                            st.1,
                            out.1,
                        );
                    } else {
                        assert(lines[i] == lines.last());
                    }
                }
            }
        }
    }
}

/// Every candidate of every line of a discard2 run is known afterwards, and every one
/// that was not known when the run started is among the new URLs the run gives.
pub proof fn lemma_discard2_run_takes_candidates(
    lines: Seq<JsonModel>,
    urls: Seq<Seq<char>>,
    known: Seq<Seq<char>>,
    pattern: Seq<char>,
    endpoint: Seq<char>,
    guild_id: Seq<char>,
    use_websockets: bool,
)
    ensures
        discard2_run(lines, urls, known, pattern, endpoint, guild_id, use_websockets) matches Some(out) ==> forall|
            i: int,
            k: int,
        |
            #![trigger line_candidates(lines[i], pattern, endpoint, guild_id, use_websockets).unwrap()[k]]
            0 <= i < lines.len() && line_candidates(lines[i], pattern, endpoint, guild_id, use_websockets) is Some
                && 0 <= k < line_candidates(lines[i], pattern, endpoint, guild_id, use_websockets).unwrap().len() ==> {
                let x = line_candidates(lines[i], pattern, endpoint, guild_id, use_websockets).unwrap()[k];
                &&& out.1.contains(x)
                &&& !known.contains(x) ==> out.0.skip(urls.len() as int).contains(x)
            },
{
    lemma_discard2_run_known(lines, urls, known, pattern, endpoint, guild_id, use_websockets);
    lemma_discard2_run_fresh(lines, urls, known, pattern, endpoint, guild_id, use_websockets);
    if let Some(out) = discard2_run(lines, urls, known, pattern, endpoint, guild_id, use_websockets) {
        let n = out.0.skip(urls.len() as int);
        assert forall|i: int, k: int|
            #![trigger line_candidates(lines[i], pattern, endpoint, guild_id, use_websockets).unwrap()[k]]
            0 <= i < lines.len() && line_candidates(lines[i], pattern, endpoint, guild_id, use_websockets) is Some
                && 0 <= k < line_candidates(lines[i], pattern, endpoint, guild_id, use_websockets).unwrap().len() implies {
            let x = line_candidates(lines[i], pattern, endpoint, guild_id, use_websockets).unwrap()[k];
            &&& out.1.contains(x)
            &&& !known.contains(x) ==> n.contains(x)
        } by {
            let c = line_candidates(lines[i], pattern, endpoint, guild_id, use_websockets).unwrap();
            assert(all_in(c, out.1));
            assert(out.1.contains(c[k]));
            lemma_contains_concat(known, n, c[k]);
        }
    }
}

/// What the known URLs are after a run: those known before, then the extracted ones.
pub fn merge_ignores(result: RetVal) -> (r: RetVal)
    ensures
        r.urls@ == result.urls@,
        strs(r.ignores@) == strs(result.ignores@) + strs(result.urls@),
{
    let RetVal { urls, mut ignores } = result;
    let ghost start = strs(ignores@);
    let n = urls.len();
    for i in 0..n
        invariant
            n == urls@.len(),
            strs(ignores@) == start + strs(urls@.take(i as int)),
    {
        let ghost before = strs(ignores@);
        ignores.push(urls[i].clone());
        assert(strs(ignores@) =~= before.push(urls@[i as int]@));
        assert(strs(urls@.take(i + 1)) =~= strs(urls@.take(i as int)).push(urls@[i as int]@));
        assert(strs(ignores@) =~= start + strs(urls@.take(i + 1)));
    }
    assert(urls@.take(n as int) =~= urls@);
    RetVal { urls, ignores }
}

/// A URL extracted by a run is read back as known by the next run, once the known URLs
/// (those known before, then the extracted ones) are stored; provided no stored entry is
/// empty or holds a newline.
pub proof fn lemma_extracted_known_next_run(known: Seq<Seq<char>>, extracted: Seq<Seq<char>>)
    requires
        forall|i: int| 0 <= i < (known + extracted).len() ==> (#[trigger] (known + extracted)[i]).len() > 0
            && is_line((known + extracted)[i]),
    ensures
        stored_entries(joined_lines(known + extracted)) == known + extracted,
        forall|k: int| 0 <= k < extracted.len() ==> stored_entries(joined_lines(known + extracted)).contains(
            #[trigger] extracted[k],
        ),
{
    lemma_stored_entries_roundtrip(known + extracted);
    assert forall|k: int| 0 <= k < extracted.len() implies stored_entries(joined_lines(known + extracted)).contains(
        #[trigger] extracted[k],
    ) by {
        assert((known + extracted)[known.len() + k] == extracted[k]);
    }
}


/// The attachment importer for Discord History Tracker databases: every attachment URL
/// is taken, and becomes known as well.
pub fn import_attachments(ignores: Vec<String>, urls: Vec<String>, attachments: &Vec<String>) -> (r: RetVal)
    ensures
        strs(r.ignores@) == strs(ignores@) + strs(attachments@),
        strs(r.urls@) == strs(urls@) + strs(attachments@),
{
    let mut ignores = ignores;
    let mut urls = urls;
    let ghost k0 = strs(ignores@);
    let ghost u0 = strs(urls@);
    let n = attachments.len();
    for i in 0..n
        invariant
            n == attachments@.len(),
            strs(ignores@) == k0 + strs(attachments@.take(i as int)),
            strs(urls@) == u0 + strs(attachments@.take(i as int)),
    {
        let ghost bk = strs(ignores@);
        let ghost bu = strs(urls@);
        ignores.push(attachments[i].clone());
        urls.push(attachments[i].clone());
        assert(strs(ignores@) =~= bk.push(attachments@[i as int]@));
        assert(strs(urls@) =~= bu.push(attachments@[i as int]@));
        assert(strs(attachments@.take(i + 1)) =~= strs(attachments@.take(i as int)).push(attachments@[i as int]@));
        assert(strs(ignores@) =~= k0 + strs(attachments@.take(i + 1)));
        assert(strs(urls@) =~= u0 + strs(attachments@.take(i + 1)));
    }
    assert(attachments@.take(n as int) =~= attachments@);
    RetVal { urls, ignores }
}


/// A run over a Discord History Tracker database whose embeds are given as JSON texts:
/// refuses the run when one of the texts is not JSON; otherwise the run over the JSON
/// values they hold, as `sql` says.
pub fn sql_texts(
    attachments: Vec<String>,
    users: &Vec<User>,
    messages: &Vec<String>,
    embed_texts: &Vec<String>,
    ignores: Vec<String>,
    urls: Vec<String>,
    pattern: &Pattern,
    arguments: &Args,
) -> (r: Result<RetVal, ExtractError>)
    requires
        !arguments.use_websockets,
    ensures
        bad_json(r) <==> exists|i: int| 0 <= i < embed_texts@.len() && !json_text_parses(#[trigger] embed_texts@[i]@),
        !bad_json(r) ==> filtered_run(
            r,
            database_candidates(
                strs(attachments@),
                users@,
                strs(messages@),
                embed_texts@.map_values(|t: String| json_text_model(t@)),
                pattern@,
            ),
            ignores@,
            urls@,
        ),
{
    let mut embeds: Vec<Json> = Vec::new();
    let n = embed_texts.len();
    for i in 0..n
        invariant
            n == embed_texts@.len(),
            embeds@.len() == i,
            forall|j: int| 0 <= j < i ==> json_text_parses(#[trigger] embed_texts@[j]@),
            forall|j: int| 0 <= j < i ==> #[trigger] embeds@[j].model() == json_text_model(embed_texts@[j]@),
    {
        match parse_json(embed_texts[i].as_str()) {
            Some(json) => {
                embeds.push(json);
            },
            None => {
                return Err(ExtractError::BadJson);
            },
        }
    }
    proof {
        lemma_items_model(embeds@);
        assert(items_model(embeds@) =~= embed_texts@.map_values(|t: String| json_text_model(t@)));
    }
    sql(attachments, users, messages, &embeds, ignores, urls, pattern, arguments)
}

} // verus!
