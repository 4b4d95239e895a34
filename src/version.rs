use vstd::prelude::*;

verus! {

/// The api version that a mapping declares: a semver triple, and whether it
/// carries a pre-release tag (which orders it before the plain triple).
#[derive(Debug, Clone, Copy, PartialEq, Eq, Structural)]
pub struct ApiVersion {
    pub major: u64,
    pub minor: u64,
    pub patch: u64,
    pub pre_release: bool,
}

/// Major, minor, patch and the presence of a pre-release tag that
/// `semver::Version::parse` reads from `s`, or `None` where it refuses `s`.
pub uninterp spec fn semver_parts(s: Seq<char>) -> Option<(u64, u64, u64, bool)>;

/// Relies on `semver::Version::parse` for the semver grammar.
#[verifier::external_body]
fn parse_semver(s: &str) -> (r: Option<(u64, u64, u64, bool)>)
    ensures
        r == semver_parts(s@),
{
    match semver::Version::parse(s) {
        Ok(v) => Some((v.major, v.minor, v.patch, !v.pre.is_empty())),
        Err(_) => None,
    }
}

/// `v` is at or after the release `major.minor.patch`.
pub open spec fn at_least(v: ApiVersion, major: u64, minor: u64, patch: u64) -> bool {
    ||| v.major > major
    ||| v.major == major && v.minor > minor
    ||| v.major == major && v.minor == minor && v.patch > patch
    ||| v.major == major && v.minor == minor && v.patch == patch && !v.pre_release
}

impl ApiVersion {
    /// The release `major.minor.patch`.
    pub fn new(major: u64, minor: u64, patch: u64) -> (r: ApiVersion)
        ensures
            r == (ApiVersion { major, minor, patch, pre_release: false }),
    {
        ApiVersion { major, minor, patch, pre_release: false }
    }

    /// Reads a version in semver notation.
    pub fn parse(s: &str) -> (r: Option<ApiVersion>)
        ensures
            match semver_parts(s@) {
                Some(p) => r == Some(ApiVersion { major: p.0, minor: p.1, patch: p.2, pre_release: p.3 }),
                None => r is None,
            },
    {
        match parse_semver(s) {
            Some((major, minor, patch, pre_release)) => Some(ApiVersion { major, minor, patch, pre_release }),
            None => None,
        }
    }

    /// Whether this version is at or after the release `major.minor.patch`.
    pub fn at_least(&self, major: u64, minor: u64, patch: u64) -> (r: bool)
        ensures
            r == at_least(*self, major, minor, patch),
    {
        if self.major != major {
            self.major > major
        } else if self.minor != minor {
            self.minor > minor
        } else if self.patch != patch {
            self.patch > patch
        } else {
            !self.pre_release
        }
    }
}

/// How an Ethereum event is laid out for the guest.
#[derive(Debug, Clone, Copy, PartialEq, Eq, Structural)]
pub enum EventLayout {
    /// The transaction without gas fields and input.
    Legacy,
    /// The transaction with gas fields and input, from api version 0.0.2 on.
    WithTransactionDetails,
}

/// How an Ethereum call is laid out for the guest.
#[derive(Debug, Clone, Copy, PartialEq, Eq, Structural)]
pub enum CallLayout {
    Legacy,
    /// With the block's and the transaction's details, from api version 0.0.3 on.
    WithDetails,
}

/// How a contract call from the guest is laid out.
#[derive(Debug, Clone, Copy, PartialEq, Eq, Structural)]
pub enum ContractCallLayout {
    Legacy,
    /// With the function signature, from api version 0.0.4 on.
    WithSignature,
}

/// The event layout for a mapping of version `v`.
pub fn event_layout(v: &ApiVersion) -> (r: EventLayout)
    ensures
        r == (if at_least(*v, 0, 0, 2) {
            EventLayout::WithTransactionDetails
        } else {
            EventLayout::Legacy
        }),
{
    if v.at_least(0, 0, 2) {
        EventLayout::WithTransactionDetails
    } else {
        EventLayout::Legacy
    }
}

/// The call layout for a mapping of version `v`.
pub fn call_layout(v: &ApiVersion) -> (r: CallLayout)
    ensures
        r == (if at_least(*v, 0, 0, 3) {
            CallLayout::WithDetails
        } else {
            CallLayout::Legacy
        }),
{
    if v.at_least(0, 0, 3) {
        CallLayout::WithDetails
    } else {
        CallLayout::Legacy
    }
}

/// The contract call layout for a mapping of version `v`.
pub fn contract_call_layout(v: &ApiVersion) -> (r: ContractCallLayout)
    ensures
        r == (if at_least(*v, 0, 0, 4) {
            ContractCallLayout::WithSignature
        } else {
            ContractCallLayout::Legacy
        }),
{
    if v.at_least(0, 0, 4) {
        ContractCallLayout::WithSignature
    } else {
        ContractCallLayout::Legacy
    }
}

} // verus!
