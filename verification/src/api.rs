//! The identity the web client receives from `/api/whoami`, as plain data.

use vstd::prelude::*;

verus! {

/// The signed-in user.
pub struct WhoamiUser {
    pub display_name: String,
    pub email: String,
}

/// The caller's organization and role in it.
pub struct WhoamiOrganization {
    pub slug: String,
    pub role: String,
}

/// One team the caller belongs to.
pub struct WhoamiTeam {
    pub id: String,
    pub slug: String,
    pub name: String,
}

/// The capability grants the caller holds on one board.
pub struct WhoamiBoardCapabilities {
    pub board_slug: String,
    pub grants: Vec<String>,
}

/// The whole `/api/whoami` identity.
pub struct Whoami {
    pub user: WhoamiUser,
    pub organization: WhoamiOrganization,
    pub teams: Vec<WhoamiTeam>,
    pub capabilities: Vec<WhoamiBoardCapabilities>,
}

} // verus!
