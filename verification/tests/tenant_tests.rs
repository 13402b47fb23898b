use getman::tenant::{default_tenant, TenantContext, TenantId};

#[test]
fn test_tenant_id_display() {
    let id = TenantId::new("org-123".to_string());
    assert_eq!(id.to_text(), "org-123");
    assert_eq!(id.as_str(), "org-123");
}

#[test]
fn test_scoped_key() {
    let ctx = TenantContext::new("tenant-1".to_string(), "Tenant One".to_string());
    assert_eq!(ctx.scoped_key("app_state"), "tenant-1:app_state");
}

#[test]
fn test_default_tenant() {
    let t = default_tenant();
    assert_eq!(t.tenant_id.as_str(), "default");
}

#[test]
fn test_with_metadata() {
    let ctx = TenantContext::new("t1".to_string(), "T1".to_string())
        .with_metadata("plan".to_string(), "enterprise".to_string());
    assert_eq!(ctx.metadata.get("plan").unwrap(), "enterprise");
}
