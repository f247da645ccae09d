//! Service configuration values.
//!
//! The configuration is parsed from a file by the surrounding program and
//! handed in as a plain value; the library never reads it from an ambient
//! global. `Config::redacted` is the one operation the library performs on
//! it: a copy safe to print, with every subscriber credential blanked.

use vstd::prelude::*;
use vstd::string::StringExecFns;

verus! {

/// Connection settings for one downstream TethysDash subscriber.
pub struct TethysDashConfig {
    pub name: String,
    pub api: String,
    pub api_key: String,
}

impl Clone for TethysDashConfig {
    fn clone(&self) -> (res: Self)
        ensures
            res == *self,
    {
        TethysDashConfig {
            name: self.name.clone(),
            api: self.api.clone(),
            api_key: self.api_key.clone(),
        }
    }
}

/// Configuration for the odss2dash service.
pub struct Config {
    pub odss_api: String,
    pub external_url: String,
    pub port: u16,
    /// Pause between dispatch cycles, in milliseconds.
    pub poll_period_ms: u64,
    pub default_last_number_of_fixes: u32,
    pub tethysdashes: Vec<TethysDashConfig>,
}

/// A copy of a subscriber list, equal element by element.
pub fn clone_tethysdashes(tethysdashes: &Vec<TethysDashConfig>) -> (res: Vec<TethysDashConfig>)
    ensures
        res@ == tethysdashes@,
{
    let mut res: Vec<TethysDashConfig> = Vec::new();
    let mut i: usize = 0;
    while i < tethysdashes.len()
        invariant
            i <= tethysdashes.len(),
            res@ =~= tethysdashes@.take(i as int),
        decreases tethysdashes.len() - i,
    {
        res.push(tethysdashes[i].clone());
        proof {
            assert(res@ =~= tethysdashes@.take(i as int + 1));
        }
        i += 1;
    }
    proof {
        assert(res@ =~= tethysdashes@);
    }
    res
}

impl Clone for Config {
    fn clone(&self) -> (res: Self)
        ensures
            res.odss_api == self.odss_api,
            res.external_url == self.external_url,
            res.port == self.port,
            res.poll_period_ms == self.poll_period_ms,
            res.default_last_number_of_fixes == self.default_last_number_of_fixes,
            res.tethysdashes@ == self.tethysdashes@,
    {
        let tethysdashes = clone_tethysdashes(&self.tethysdashes);
        Config {
            odss_api: self.odss_api.clone(),
            external_url: self.external_url.clone(),
            port: self.port,
            poll_period_ms: self.poll_period_ms,
            default_last_number_of_fixes: self.default_last_number_of_fixes,
            tethysdashes,
        }
    }
}

impl Config {
    /// A copy of the configuration with every subscriber's credential
    /// replaced by the placeholder text, fit for display.
    pub fn redacted(&self) -> (res: Config)
        ensures
            res.odss_api == self.odss_api,
            res.external_url == self.external_url,
            res.port == self.port,
            res.poll_period_ms == self.poll_period_ms,
            res.default_last_number_of_fixes == self.default_last_number_of_fixes,
            res.tethysdashes@.len() == self.tethysdashes@.len(),
            forall|i: int| 0 <= i < self.tethysdashes@.len() ==> {
                &&& (#[trigger] res.tethysdashes@[i]).name == self.tethysdashes@[i].name
                &&& res.tethysdashes@[i].api == self.tethysdashes@[i].api
                &&& res.tethysdashes@[i].api_key@ == "REDACTED"@
            },
    {
        let mut tethysdashes: Vec<TethysDashConfig> = Vec::new();
        let mut i: usize = 0;
        while i < self.tethysdashes.len()
            invariant
                i <= self.tethysdashes.len(),
                tethysdashes@.len() == i,
                forall|j: int| 0 <= j < i ==> {
                    &&& (#[trigger] tethysdashes@[j]).name == self.tethysdashes@[j].name
                    &&& tethysdashes@[j].api == self.tethysdashes@[j].api
                    &&& tethysdashes@[j].api_key@ == "REDACTED"@
                },
            decreases self.tethysdashes.len() - i,
        {
            let td = &self.tethysdashes[i];
            tethysdashes.push(TethysDashConfig {
                name: td.name.clone(),
                api: td.api.clone(),
                api_key: String::from_str("REDACTED"),
            });
            i += 1;
        }
        Config {
            odss_api: self.odss_api.clone(),
            external_url: self.external_url.clone(),
            port: self.port,
            poll_period_ms: self.poll_period_ms,
            default_last_number_of_fixes: self.default_last_number_of_fixes,
            tethysdashes,
        }
    }
}

} // verus!
