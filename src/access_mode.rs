use vstd::prelude::*;
use crate::error::{Error, ErrorKind, config_error};
use crate::text::str_eq;

verus! {

/// Whether a replica may change its storage.
#[derive(PartialEq, Eq, Structural, Clone, Copy, Debug, Hash)]
pub enum AccessMode {
    ReadOnly,
    ReadWrite,
}

pub open spec fn access_mode_name(m: AccessMode) -> Seq<char> {
    match m {
        AccessMode::ReadOnly => "read_only"@,
        AccessMode::ReadWrite => "read_write"@,
    }
}

impl AccessMode {
    pub fn read_only() -> (r: AccessMode)
        ensures
            r == AccessMode::ReadOnly,
    {
        AccessMode::ReadOnly
    }

    pub fn read_write() -> (r: AccessMode)
        ensures
            r == AccessMode::ReadWrite,
    {
        AccessMode::ReadWrite
    }

    pub fn is_read_only(&self) -> (r: bool)
        ensures
            r == (*self == AccessMode::ReadOnly),
    {
        *self == AccessMode::ReadOnly
    }

    pub fn is_read_write(&self) -> (r: bool)
        ensures
            r == (*self == AccessMode::ReadWrite),
    {
        *self == AccessMode::ReadWrite
    }

    pub fn to_s(&self) -> (r: &'static str)
        ensures
            r@ == access_mode_name(*self),
    {
        match self {
            AccessMode::ReadOnly => "read_only",
            AccessMode::ReadWrite => "read_write",
        }
    }

    /// The symbol name of the mode; the same as `to_s`.
    pub fn to_symbol(&self) -> (r: &'static str)
        ensures
            r@ == access_mode_name(*self),
    {
        self.to_s()
    }

    pub fn inspect(&self) -> (r: String)
        ensures
            r@ == "#<Taskchampion::AccessMode:"@ + access_mode_name(*self) + ">"@,
    {
        let mut t = String::from_str("#<Taskchampion::AccessMode:");
        t.append(self.to_s());
        t.append(">");
        t
    }

    pub fn eq(&self, other: &AccessMode) -> (r: bool)
        ensures
            r == (*self == *other),
    {
        *self == *other
    }

    pub fn eql(&self, other: &AccessMode) -> (r: bool)
        ensures
            r == (*self == *other),
    {
        *self == *other
    }

    /// The mode a symbol names: `read_only` or `read_write`.
    pub fn from_symbol(sym: &str) -> (r: Result<AccessMode, Error>)
        ensures
            r is Ok <==> (sym@ == "read_only"@ || sym@ == "read_write"@),
            r is Ok ==> access_mode_name(r->Ok_0) == sym@,
            r is Err ==> r->Err_0.kind == ErrorKind::Config,
    {
        if str_eq(sym, "read_only") {
            Ok(AccessMode::ReadOnly)
        } else if str_eq(sym, "read_write") {
            Ok(AccessMode::ReadWrite)
        } else {
            Err(config_error("Invalid access mode, expected :read_only or :read_write"))
        }
    }
}

} // verus!
