use vstd::prelude::*;

verus! {

/// Connection settings for the target database.  Every field is optional;
/// defaults are resolved by the database gateway, never by this engine.
pub struct SurrealdbConfiguration {
    pub url: Option<String>,
    pub ns: Option<String>,
    pub db: Option<String>,
    pub username: Option<String>,
    pub password: Option<String>,
}

impl SurrealdbConfiguration {
    /// Create an instance of SurrealdbConfiguration with default values.
    pub fn default() -> (r: SurrealdbConfiguration)
        ensures
            r.url is None,
            r.ns is None,
            r.db is None,
            r.username is None,
            r.password is None,
    {
        SurrealdbConfiguration {
            url: None,
            ns: None,
            db: None,
            username: None,
            password: None,
        }
    }
}

} // verus!
