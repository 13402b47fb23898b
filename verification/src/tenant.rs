//! Tenant identity and tenant-scoped key derivation.

use vstd::prelude::*;
use vstd::string::*;
use crate::strmap::StringMap;

verus! {

/// Represents a tenant in the system.
pub struct TenantId(pub String);

impl TenantId {
    pub fn new(id: String) -> (r: Self)
        ensures
            r.0@ == id@,
    {
        TenantId(id)
    }

    pub fn as_str(&self) -> (r: &str)
        ensures
            r@ == self.0@,
    {
        self.0.as_str()
    }

    /// The identifier as an owned string.
    pub fn to_text(&self) -> (r: String)
        ensures
            r@ == self.0@,
    {
        self.0.clone()
    }
}

/// Tenant context carried through operations.
pub struct TenantContext {
    pub tenant_id: TenantId,
    pub tenant_name: String,
    pub metadata: StringMap,
}

impl TenantContext {
    pub fn new(id: String, name: String) -> (r: Self)
        ensures
            r.tenant_id.0@ == id@,
            r.tenant_name@ == name@,
            r.metadata@ == Map::<Seq<char>, Seq<char>>::empty(),
    {
        TenantContext { tenant_id: TenantId::new(id), tenant_name: name, metadata: StringMap::new() }
    }

    pub fn with_metadata(self, key: String, value: String) -> (r: Self)
        ensures
            r.tenant_id.0@ == self.tenant_id.0@,
            r.tenant_name@ == self.tenant_name@,
            r.metadata@ == self.metadata@.insert(key@, value@),
    {
        let mut next = self;
        next.metadata.insert(key, value);
        next
    }

    /// Build a namespaced key for tenant-scoped storage.
    pub fn scoped_key(&self, key: &str) -> (r: String)
        ensures
            r@ == self.tenant_id.0@ + ":"@ + key@,
    {
        let mut s = self.tenant_id.0.clone();
        s.append(":");
        s.append(key);
        proof {
            assert(s@ =~= self.tenant_id.0@ + ":"@ + key@);
        }
        s
    }
}

/// Default tenant for single-user / local desktop mode.
pub fn default_tenant() -> (r: TenantContext)
    ensures
        r.tenant_id.0@ == "default"@,
        r.tenant_name@ == "Default Tenant"@,
        r.metadata@ == Map::<Seq<char>, Seq<char>>::empty(),
{
    TenantContext::new("default".to_owned(), "Default Tenant".to_owned())
}

} // verus!
