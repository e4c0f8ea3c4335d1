//! The records that the Mojang web services answer with. Turning JSON text
//! into them is left to the caller.
use vstd::prelude::*;

verus! {

/// The status of each Mojang service.
#[derive(Clone, Debug)]
pub struct APIStatusResponse {
    pub minecraftnet: String,
    pub sessionminecraftnet: String,
    pub accountmojangcom: String,
    pub authmojangcom: String,
    pub skinsminecraftnet: String,
    pub authservermojangcom: String,
    pub sessionservermojangcom: String,
    pub apimojangcom: String,
    pub texturesminecraftnet: String,
    pub mojangcom: String,
}

/// One name-to-uuid mapping.
#[derive(Clone, Debug)]
pub struct NameUUID {
    /// The uuid as 32 hexadecimal digits.
    pub id: String,
    /// The current name of the player.
    pub name: String,
    pub legacy: bool,
    pub demo: bool,
}

/// A player profile.
#[derive(Clone, Debug)]
pub struct Profile {
    pub id: String,
    pub name: String,
    pub properties: Vec<ProfileProperties>,
}

/// One property of a profile.
#[derive(Clone, Debug)]
pub struct ProfileProperties {
    pub name: String,
    pub value: String,
    pub signature: Option<String>,
}

/// One former name of an account, and when it was taken.
#[allow(non_snake_case)]
#[derive(Clone, Debug)]
pub struct NameHistory {
    pub name: String,
    pub changedToAt: Option<u64>,
}

/// The answer to a successful authentication.
#[allow(non_snake_case)]
#[derive(Clone, Debug)]
pub struct AuthenticationResponse {
    pub accessToken: String,
    pub clientToken: Option<String>,
    pub availableProfiles: Option<Vec<NameUUID>>,
    pub selectedProfile: NameUUID,
}

/// Whether a client told the session service of its join.
#[derive(Clone, Debug)]
pub struct SessionHasJoinedResponse {
    pub id: String,
    pub name: String,
    pub properties: ProfileProperties,
}

/// The value a missing flag of a name record takes.
pub fn always_false() -> (r: bool)
    ensures
        !r,
{
    false
}

} // verus!
