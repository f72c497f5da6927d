//! Schema of `inventory/site.toml`: site identity, network ranges and the
//! fleet services the tooling talks to. (The power-cost constants hold a
//! fractional tariff and live with the binary.)

use vstd::prelude::*;

verus! {

/// Deployed fleet services the tooling talks to.
#[derive(Debug, Clone)]
pub struct Services {
    /// Base URL of the NetBox instance the escrow pulls from.
    pub netbox_url: String,
}

/// Who and what the site is.
#[derive(Debug, Clone)]
pub struct SiteIdentity {
    /// Site name.
    pub name: String,
    /// Operating entity.
    pub operator: String,
    /// One-line description.
    pub description: String,
}

/// Network ranges.
#[derive(Debug, Clone)]
pub struct Networks {
    /// LAN CIDR.
    pub lan: String,
    /// Storage/observability fabric CIDR.
    pub fabric: String,
    /// WAN description.
    pub wan: String,
    /// Out-of-band management CIDR (BMCs), where declared.
    pub mgmt: Option<String>,
}

/// The abstract content of a [`SiteIdentity`].
pub struct IdentityModel {
    pub name: Seq<char>,
    pub operator: Seq<char>,
    pub description: Seq<char>,
}

impl View for SiteIdentity {
    type V = IdentityModel;

    open spec fn view(&self) -> IdentityModel {
        IdentityModel { name: self.name@, operator: self.operator@, description: self.description@ }
    }
}

/// The abstract content of a [`Networks`].
pub struct NetworksModel {
    pub lan: Seq<char>,
    pub fabric: Seq<char>,
    pub wan: Seq<char>,
    pub mgmt: Option<Seq<char>>,
}

impl View for Networks {
    type V = NetworksModel;

    open spec fn view(&self) -> NetworksModel {
        NetworksModel {
            lan: self.lan@,
            fabric: self.fabric@,
            wan: self.wan@,
            mgmt: self.mgmt.deep_view(),
        }
    }
}

} // verus!
