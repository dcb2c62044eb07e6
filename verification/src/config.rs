//! The user configuration consumed by the manager: session cookie,
//! request user agent, and the save directory for downloads.
//!
//! Reading and writing the configuration file is the caller's concern;
//! this module holds the configuration value and its defaults.

use vstd::prelude::*;

verus! {

/// The user agent sent with every request unless configured otherwise.
pub const DEFAULT_USER_AGENT: &'static str =
    "Mozilla/5.0 (Windows NT 10.0; Win64; x64) AppleWebKit/537.36 (KHTML, like Gecko) Chrome/126.0.0.0 Safari/537.36 Edg/126.0.0.0";

/// The save directory used before the user configures one.
pub const DEFAULT_SAVE_PATH: &'static str = "D:\\download";

/// User configuration: cookie for authenticated requests, user agent,
/// and the directory downloads are saved into.
pub struct BiliConfig {
    pub cookie: String,
    pub agent: String,
    pub save_path: String,
}

impl Clone for BiliConfig {
    /// Field-for-field copy.
    fn clone(&self) -> (r: Self)
        ensures
            r == *self,
    {
        BiliConfig {
            cookie: self.cookie.clone(),
            agent: self.agent.clone(),
            save_path: self.save_path.clone(),
        }
    }
}

/// The configuration used until the user saves one: no cookie, the
/// default agent, the default save directory.
pub fn create_default_config() -> (c: BiliConfig)
    ensures
        c.cookie@ == ""@,
        c.agent@ == DEFAULT_USER_AGENT@,
        c.save_path@ == DEFAULT_SAVE_PATH@,
{
    BiliConfig {
        cookie: String::from_str(""),
        agent: String::from_str(DEFAULT_USER_AGENT),
        save_path: String::from_str(DEFAULT_SAVE_PATH),
    }
}

} // verus!
