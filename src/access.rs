//! Access tiers and the whitelist entry.
use vstd::prelude::*;
use vstd::string::*;

verus! {

/// The six access tiers of the sandbox. The order of the variants only serves
/// to order entries; it says nothing of precedence.
#[derive(Clone, Copy, Debug, PartialEq, Eq, Structural, PartialOrd, Ord, Hash)]
pub enum Access {
    Normal,
    Open,
    OpenForAll,
    Closed,
    ReadOnly,
    BoxOnly,
}

/// The key under which a tier is written in the rule file.
pub open spec fn ini_key(a: Access) -> Seq<char> {
    match a {
        Access::Normal => "NormalFilePath"@,
        Access::Open => "OpenFilePath"@,
        Access::OpenForAll => "OpenPipePath"@,
        Access::Closed => "ClosedFilePath"@,
        Access::ReadOnly => "ReadFilePath"@,
        Access::BoxOnly => "WriteFilePath"@,
    }
}

/// The name of a tier as a person reads it.
pub open spec fn label_text(a: Access) -> Seq<char> {
    match a {
        Access::Normal => "Normal"@,
        Access::Open => "Open"@,
        Access::OpenForAll => "Open For All"@,
        Access::Closed => "Closed"@,
        Access::ReadOnly => "Read Only"@,
        Access::BoxOnly => "Box Only"@,
    }
}

/// What a tier does, in one sentence.
pub open spec fn description_text(a: Access) -> Seq<char> {
    match a {
        Access::Normal => "Regular Sandboxie Behavior - allow read and also copy on write."@,
        Access::Open => "Allow write-access outside of sandbox."@,
        Access::OpenForAll =>
            "Allow write-access outside of sandbox, also for applications installed inside the sandbox."@,
        Access::Closed => "Deny access to host location and prevent creation of sandboxed copies."@,
        Access::ReadOnly => "Allow read-only access only."@,
        Access::BoxOnly => "Hide host files, folders or registry keys from sandboxed processes."@,
    }
}

impl Access {
    /// The key of this tier in the rule file.
    pub fn to_ini_string(&self) -> (r: String)
        ensures
            r@ == ini_key(*self),
    {
        match self {
            Access::Normal => String::from_str("NormalFilePath"),
            Access::Open => String::from_str("OpenFilePath"),
            Access::OpenForAll => String::from_str("OpenPipePath"),
            Access::Closed => String::from_str("ClosedFilePath"),
            Access::ReadOnly => String::from_str("ReadFilePath"),
            Access::BoxOnly => String::from_str("WriteFilePath"),
        }
    }

    /// The display name of this tier.
    pub fn label(&self) -> (r: String)
        ensures
            r@ == label_text(*self),
    {
        match self {
            Access::Normal => String::from_str("Normal"),
            Access::Open => String::from_str("Open"),
            Access::OpenForAll => String::from_str("Open For All"),
            Access::Closed => String::from_str("Closed"),
            Access::ReadOnly => String::from_str("Read Only"),
            Access::BoxOnly => String::from_str("Box Only"),
        }
    }

    /// A one-sentence explanation of this tier.
    pub fn description(&self) -> (r: String)
        ensures
            r@ == description_text(*self),
    {
        match self {
            Access::Normal => String::from_str(
                "Regular Sandboxie Behavior - allow read and also copy on write.",
            ),
            Access::Open => String::from_str("Allow write-access outside of sandbox."),
            Access::OpenForAll => String::from_str(
                "Allow write-access outside of sandbox, also for applications installed inside the sandbox.",
            ),
            Access::Closed => String::from_str(
                "Deny access to host location and prevent creation of sandboxed copies.",
            ),
            Access::ReadOnly => String::from_str("Allow read-only access only."),
            Access::BoxOnly => String::from_str(
                "Hide host files, folders or registry keys from sandboxed processes.",
            ),
        }
    }

    /// Every tier, in declaration order.
    pub fn all() -> (r: Vec<Access>)
        ensures
            r@ == seq![
                Access::Normal,
                Access::Open,
                Access::OpenForAll,
                Access::Closed,
                Access::ReadOnly,
                Access::BoxOnly,
            ],
    {
        let r = vec![
            Access::Normal,
            Access::Open,
            Access::OpenForAll,
            Access::Closed,
            Access::ReadOnly,
            Access::BoxOnly,
        ];
        assert(r@ =~= seq![
            Access::Normal,
            Access::Open,
            Access::OpenForAll,
            Access::Closed,
            Access::ReadOnly,
            Access::BoxOnly,
        ]);
        r
    }
}

/// A path with its access tier: one row of the whitelist, or one inferred
/// deny rule.
#[derive(Clone, Debug, PartialEq, Eq, PartialOrd, Ord, Hash)]
pub struct Entry {
    pub path: String,
    pub access: Access,
}

impl Entry {
    /// An entry for `path` with tier `access`.
    pub fn new(path: String, access: Access) -> (r: Entry)
        ensures
            r.path == path,
            r.access == access,
    {
        Entry { path, access }
    }
}

} // verus!
