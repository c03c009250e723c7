//! The registry's configuration, issuer record, error and event types.

use vstd::prelude::*;

verus! {

/// Deployment-time bounds of the registry: maximum lengths of the byte
/// strings it stores, the clamp range for update intervals, and the
/// capacity of each issuer's proposer list.
pub struct Config {
    pub max_length_issuer_domain: u32,
    pub max_length_issuer_open_id_url: u32,
    pub max_length_issuer_jwks: u32,
    pub min_update_interval: u32,
    pub max_update_interval: u32,
    pub max_proposers_per_issuer: u32,
}

impl Config {
    /// A usable configuration: the clamp range is non-empty.
    pub open spec fn wf(self) -> bool {
        self.min_update_interval <= self.max_update_interval
    }
}

/// Metadata stored for one registered issuer domain.
pub struct Issuer {
    /// OpenID discovery URL of the issuer, when one is known.
    pub open_id_url: Option<Vec<u8>>,
    /// How many blocks to wait between automatic updates; `None` means no
    /// periodic update.
    pub interval_update: Option<u32>,
    /// Whether the issuer is currently accepted for validating tokens.
    pub is_enabled: bool,
}

/// The mathematical value of an [`Issuer`].
pub ghost struct IssuerV {
    pub open_id_url: Option<Seq<u8>>,
    pub interval_update: Option<u32>,
    pub is_enabled: bool,
}

impl View for Issuer {
    type V = IssuerV;

    open spec fn view(&self) -> IssuerV {
        IssuerV {
            open_id_url: match self.open_id_url {
                Some(url) => Some(url@),
                None => None,
            },
            interval_update: self.interval_update,
            is_enabled: self.is_enabled,
        }
    }
}

impl DeepView for Issuer {
    type V = IssuerV;

    open spec fn deep_view(&self) -> IssuerV {
        self.view()
    }
}

/// Everything that can go wrong in a registry operation.
#[derive(Clone, Copy, Debug, PartialEq, Eq, Structural)]
pub enum Error {
    IssuerAlreadyExists,
    IssuerDomainTooLong,
    IssuerJWKSTooLong,
    IssuerOpenIdURLTooLong,
    IssuerDoesNotExist,
    IssuerUpdateIntervalAboveMax,
    IssuerUpdateIntervalNotMultipleOfBlock,
    IssuerOpenIdURLOrJWKSNotProvided,
    OnlyGovernanceCanUpdateIssuer,
    OnlyGovernanceCanDeleteIssuer,
    InvalidJson,
    JsonTooLong,
    AlreadyProposedForJWKS,
    OnlyValidatorsCanProposeJWKS,
    DomainNotRegistered,
    MaxProposersPerIssuerExceeded,
}

/// Notification emitted by a successful mutating operation, scoped to the
/// domain it touched and carrying the caller identity.
pub enum Event {
    IssuerRegistered { who: u64, domain: Vec<u8> },
    IssuerUpdated { who: u64, domain: Vec<u8> },
    IssuerDeleted { who: u64, domain: Vec<u8> },
    IssuerEnabledUpdated { who: u64, domain: Vec<u8>, is_enabled: bool },
    IssuerAutoUpdateUpdated { who: u64, domain: Vec<u8>, auto_update: bool },
    IssuerIntervalUpdateUpdated { who: u64, domain: Vec<u8>, interval_update: Option<u32> },
    IssuerJWKSUpdated { who: u64, domain: Vec<u8> },
    IssuerOpenIdURLUpdated { who: u64, domain: Vec<u8> },
}

/// The mathematical value of an [`Event`].
pub ghost enum EventV {
    IssuerRegistered { who: u64, domain: Seq<u8> },
    IssuerUpdated { who: u64, domain: Seq<u8> },
    IssuerDeleted { who: u64, domain: Seq<u8> },
    IssuerEnabledUpdated { who: u64, domain: Seq<u8>, is_enabled: bool },
    IssuerAutoUpdateUpdated { who: u64, domain: Seq<u8>, auto_update: bool },
    IssuerIntervalUpdateUpdated { who: u64, domain: Seq<u8>, interval_update: Option<u32> },
    IssuerJWKSUpdated { who: u64, domain: Seq<u8> },
    IssuerOpenIdURLUpdated { who: u64, domain: Seq<u8> },
}

impl View for Event {
    type V = EventV;

    open spec fn view(&self) -> EventV {
        match self {
            Event::IssuerRegistered { who, domain } => EventV::IssuerRegistered {
                who: *who,
                domain: domain@,
            },
            Event::IssuerUpdated { who, domain } => EventV::IssuerUpdated {
                who: *who,
                domain: domain@,
            },
            Event::IssuerDeleted { who, domain } => EventV::IssuerDeleted {
                who: *who,
                domain: domain@,
            },
            Event::IssuerEnabledUpdated { who, domain, is_enabled } => (EventV::IssuerEnabledUpdated {
                who: *who,
                domain: domain@,
                is_enabled: *is_enabled,
            }),
            Event::IssuerAutoUpdateUpdated { who, domain, auto_update } => (EventV::IssuerAutoUpdateUpdated {
                who: *who,
                domain: domain@,
                auto_update: *auto_update,
            }),
            Event::IssuerIntervalUpdateUpdated { who, domain, interval_update } => (EventV::IssuerIntervalUpdateUpdated {
                who: *who,
                domain: domain@,
                interval_update: *interval_update,
            }),
            Event::IssuerJWKSUpdated { who, domain } => EventV::IssuerJWKSUpdated {
                who: *who,
                domain: domain@,
            },
            Event::IssuerOpenIdURLUpdated { who, domain } => EventV::IssuerOpenIdURLUpdated {
                who: *who,
                domain: domain@,
            },
        }
    }
}

} // verus!
