//! The requests to the Mojang web services, built and checked here; sending
//! them is left to the caller.
use vstd::prelude::*;

use crate::bindings::sha1_digest;
use crate::clientbound::names_view;
use vstd::string::{StrSliceExecFns, StringExecFns};
use crate::error::reason;
use crate::wire::ascii_chars;
use crate::yggdrasil::{hash_text, sha1};
use vstd::string::StringSliceAdditionalSpecFns;

pub use crate::json::{
    always_false, APIStatusResponse, AuthenticationResponse, NameHistory, NameUUID, Profile,
    ProfileProperties, SessionHasJoinedResponse,
};
pub use crate::yggdrasil::create_shared_secret;

verus! {

/// Ask for the status of the Mojang services.
#[derive(Clone, Debug)]
pub struct APIStatus {}

impl APIStatus {
    pub fn new() -> APIStatus {
        APIStatus {}
    }

    /// Where the request goes.
    pub fn get_endpoint() -> (r: String)
        ensures
            r@ == "https://status.mojang.com/check"@,
    {
        reason("https://status.mojang.com/check")
    }
}

/// Ask which account had a name, now or at a point in time (epoch seconds).
#[derive(Clone, Debug)]
pub struct NameToUUID {
    pub username: String,
    pub at: Option<i64>,
}

impl NameToUUID {
    pub fn new(username: String, at: Option<i64>) -> (r: NameToUUID)
        ensures
            r.username == username,
            r.at == at,
    {
        NameToUUID { username, at }
    }
}

/// Ask for the former names of an account, by its uuid without dashes.
#[derive(Clone, Debug)]
pub struct UUIDToHistory {
    pub uuid: String,
}

impl UUIDToHistory {
    pub fn new(uuid: String) -> (r: UUIDToHistory)
        ensures
            r.uuid == uuid,
    {
        UUIDToHistory { uuid }
    }
}

/// The most names one name-to-uuid request may carry.
pub const MAX_NAMES_PER_REQUEST: usize = 100;

/// Ask for the uuids of up to 100 names at once.
#[derive(Clone, Debug)]
pub struct PlayernamesToUUIDs {
    pub usernames: Vec<String>,
}

impl PlayernamesToUUIDs {
    /// Where the request goes.
    pub fn get_endpoint() -> (r: String)
        ensures
            r@ == "https://api.mojang.com/profiles/minecraft"@,
    {
        reason("https://api.mojang.com/profiles/minecraft")
    }

    /// A request for these names; the service takes at most 100.
    pub fn new(usernames: Vec<String>) -> (r: Self)
        requires
            usernames@.len() <= MAX_NAMES_PER_REQUEST,
        ensures
            r.usernames == usernames,
    {
        PlayernamesToUUIDs { usernames }
    }
}

/// Ask for the profile, skin and cape of an account, signed or not.
#[derive(Clone, Debug)]
pub struct UUIDToProfile {
    pub uuid: String,
    pub signed: bool,
}

impl UUIDToProfile {
    pub fn new(uuid: String, signed: bool) -> (r: UUIDToProfile)
        ensures
            r.uuid == uuid,
            r.signed == signed,
    {
        UUIDToProfile { uuid, signed }
    }
}

/// Ask for the hashes of the blocked servers.
#[derive(Clone, Debug)]
pub struct BlockedServers {}

/// The state of splitting after the first `i` characters: the finished
/// non-empty lines, and the line being read.
pub open spec fn split_prefix(cs: Seq<char>, i: int) -> (Seq<Seq<char>>, Seq<char>)
    decreases i,
{
    if i <= 0 {
        (seq![], seq![])
    } else {
        let (lines, cur) = split_prefix(cs, i - 1);
        if cs[i - 1] == '\n' {
            (if cur.len() > 0 {
                lines.push(cur)
            } else {
                lines
            }, seq![])
        } else {
            (lines, cur.push(cs[i - 1]))
        }
    }
}

/// The non-empty lines of `cs`, split at line feeds.
pub open spec fn nonempty_lines(cs: Seq<char>) -> Seq<Seq<char>> {
    let (lines, cur) = split_prefix(cs, cs.len() as int);
    if cur.len() > 0 {
        lines.push(cur)
    } else {
        lines
    }
}

impl BlockedServers {
    pub fn new() -> BlockedServers {
        BlockedServers {}
    }

    /// The hashes in the service's answer: its non-empty lines.
    pub fn perform(&self, response: &str) -> (r: Vec<String>)
        ensures
            names_view(r@) == nonempty_lines(response@),
    {
        let n = response.unicode_len();
        let mut out: Vec<String> = Vec::new();
        let mut start: usize = 0;
        let mut i: usize = 0;
        while i < n
            invariant
                n == response@.len(),
                start <= i <= n,
                split_prefix(response@, i as int) == (names_view(out@), response@.subrange(
                    start as int,
                    i as int,
                )),
            decreases n - i,
        {
            let c = response.get_char(i);
            if c == '\n' {
                if i > start {
                    let line = String::from_str(response.substring_char(start, i));
                    let ghost before = out@;
                    out.push(line);
                    assert(names_view(out@) =~= names_view(before).push(line@));
                }
                start = i + 1;
                i = i + 1;
                assert(response@.subrange(start as int, i as int) =~= Seq::<char>::empty());
            } else {
                assert(response@.subrange(start as int, i + 1) =~= response@.subrange(
                    start as int,
                    i as int,
                ).push(c));
                i = i + 1;
            }
        }
        if n > start {
            let line = String::from_str(response.substring_char(start, n));
            let ghost before = out@;
            out.push(line);
            assert(names_view(out@) =~= names_view(before).push(line@));
        }
        out
    }

    /// Where the request goes.
    pub fn get_endpoint() -> (r: String)
        ensures
            r@ == "https://sessionserver.mojang.com/blockedservers"@,
    {
        reason("https://sessionserver.mojang.com/blockedservers")
    }
}

/// Ask for the sum of sales of the chosen kinds.
#[derive(Clone, Debug)]
pub struct Statistics {
    pub item_sold_minecraft: bool,
    pub prepaid_card_redeemed_minecraft: bool,
    pub item_sold_cobalt: bool,
    pub item_sold_scrolls: bool,
}

impl Statistics {
    /// Where the request goes.
    pub fn get_endpoint() -> (r: String)
        ensures
            r@ == "https://api.mojang.com/orders/statistics"@,
    {
        reason("https://api.mojang.com/orders/statistics")
    }

    /// A request for the chosen kinds of sale; at least one must be chosen.
    pub fn new(
        item_sold_minecraft: bool,
        prepaid_card_redeemed_minecraft: bool,
        item_sold_cobalt: bool,
        item_sold_scrolls: bool,
    ) -> (r: Self)
        requires
            item_sold_minecraft || prepaid_card_redeemed_minecraft || item_sold_cobalt
                || item_sold_scrolls,
        ensures
            r.item_sold_minecraft == item_sold_minecraft,
            r.prepaid_card_redeemed_minecraft == prepaid_card_redeemed_minecraft,
            r.item_sold_cobalt == item_sold_cobalt,
            r.item_sold_scrolls == item_sold_scrolls,
    {
        Statistics {
            item_sold_minecraft,
            prepaid_card_redeemed_minecraft,
            item_sold_cobalt,
            item_sold_scrolls,
        }
    }

    /// Every kind of sale.
    pub fn all() -> (r: Self)
        ensures
            r.item_sold_minecraft && r.prepaid_card_redeemed_minecraft && r.item_sold_cobalt
                && r.item_sold_scrolls,
    {
        Statistics {
            item_sold_minecraft: true,
            prepaid_card_redeemed_minecraft: true,
            item_sold_cobalt: true,
            item_sold_scrolls: true,
        }
    }

    /// The Minecraft sales only.
    pub fn minecraft() -> (r: Self)
        ensures
            r.item_sold_minecraft && r.prepaid_card_redeemed_minecraft && !r.item_sold_cobalt
                && !r.item_sold_scrolls,
    {
        Statistics {
            item_sold_minecraft: true,
            prepaid_card_redeemed_minecraft: true,
            item_sold_cobalt: false,
            item_sold_scrolls: false,
        }
    }
}

/// Authenticate with a Mojang account.
#[allow(non_snake_case)]
#[derive(Clone, Debug)]
pub struct Authenticate {
    pub username: String,
    pub password: String,
    pub clientToken: Option<String>,
    pub requestUser: bool,
}

impl Authenticate {
    /// Where the request goes.
    pub fn get_endpoint() -> (r: String)
        ensures
            r@ == "https://authserver.mojang.com/authenticate"@,
    {
        reason("https://authserver.mojang.com/authenticate")
    }

    /// A request with these credentials, no client token and no user record.
    pub fn new(username: String, password: String) -> (r: Self)
        ensures
            r.username == username,
            r.password == password,
            r.clientToken is None,
            !r.requestUser,
    {
        Authenticate { username, password, clientToken: None, requestUser: false }
    }
}

/// Refresh a valid access token.
#[allow(non_snake_case)]
#[derive(Clone, Debug)]
pub struct AuthenticateRefresh {
    pub accessToken: String,
    pub clientToken: String,
    pub requestUser: bool,
}

impl AuthenticateRefresh {
    /// Where the request goes.
    pub fn get_endpoint() -> (r: String)
        ensures
            r@ == "https://authserver.mojang.com/refresh"@,
    {
        reason("https://authserver.mojang.com/refresh")
    }
}

/// Check an access token.
#[allow(non_snake_case)]
#[derive(Clone, Debug)]
pub struct AuthenticateValidate {
    pub accessToken: String,
    pub clientToken: Option<String>,
}

impl AuthenticateValidate {
    /// Where the request goes.
    pub fn get_endpoint() -> (r: String)
        ensures
            r@ == "https://authserver.mojang.com/validate"@,
    {
        reason("https://authserver.mojang.com/validate")
    }
}

/// Invalidate the access tokens of an account, by its credentials.
#[derive(Clone, Debug)]
pub struct AuthenticateSignout {
    pub username: String,
    pub password: String,
}

impl AuthenticateSignout {
    /// Where the request goes.
    pub fn get_endpoint() -> (r: String)
        ensures
            r@ == "https://authserver.mojang.com/signout"@,
    {
        reason("https://authserver.mojang.com/signout")
    }
}

/// Invalidate an access token.
#[allow(non_snake_case)]
#[derive(Clone, Debug)]
pub struct AuthenticateInvalidate {
    pub accessToken: String,
    pub clientToken: String,
}

impl AuthenticateInvalidate {
    /// Where the request goes.
    pub fn get_endpoint() -> (r: String)
        ensures
            r@ == "https://authserver.mojang.com/invalidate"@,
    {
        reason("https://authserver.mojang.com/invalidate")
    }
}

/// Tell the session service that this account joins a server; a client does
/// it before answering the encryption request.
#[allow(non_snake_case)]
#[derive(Clone, Debug)]
pub struct SessionJoin {
    pub accessToken: String,
    /// The player's uuid.
    pub selectedProfile: String,
    /// The server-id hash.
    pub serverId: String,
}

impl SessionJoin {
    /// Where the request goes.
    pub fn get_endpoint() -> (r: String)
        ensures
            r@ == "https://sessionserver.mojang.com/session/minecraft/join"@,
    {
        reason("https://sessionserver.mojang.com/session/minecraft/join")
    }

    /// The join for this token and account, with the server-id hash of the
    /// server id, the shared secret and the server's public key.
    pub fn new(
        access_token: String,
        uuid: String,
        server_id: &str,
        shared_secret: &[u8],
        server_public_key: &[u8],
    ) -> (r: Self)
        ensures
            r.accessToken == access_token,
            r.selectedProfile == uuid,
            r.serverId@ == ascii_chars(
                hash_text(sha1_digest(server_id.spec_bytes() + shared_secret@ + server_public_key@)),
            ),
    {
        let hash = sha1(server_id, shared_secret, server_public_key);
        SessionJoin { accessToken: access_token, selectedProfile: uuid, serverId: hash }
    }
}

/// Ask the session service whether a player told it of the join; a server
/// does it to authenticate a client.
#[allow(non_snake_case)]
#[derive(Clone, Debug)]
pub struct SessionHasJoined {
    pub username: String,
    pub serverId: String,
}

impl SessionHasJoined {
    /// The question for this player, with the server-id hash of the server id,
    /// the shared secret and the server's public key.
    pub fn new(username: String, server_id: &str, shared_secret: &[u8], public_key: &[u8]) -> (r:
        Self)
        ensures
            r.username == username,
            r.serverId@ == ascii_chars(
                hash_text(sha1_digest(server_id.spec_bytes() + shared_secret@ + public_key@)),
            ),
    {
        let hash = sha1(server_id, shared_secret, public_key);
        SessionHasJoined { username, serverId: hash }
    }
}

} // verus!
