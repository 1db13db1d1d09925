//! Configuration data as the core consumes it. Loading files and parsing
//! TOML stay with the caller; these types carry only plain values.

use vstd::prelude::*;

verus! {

/// The farm controller's configuration.
#[derive(Debug)]
pub struct HeavenConfig {
    pub log_level: Option<String>,
    pub web: HeavenWebConfig,
    pub mqtt: HeavenMQTTConfig,
}

/// Where the dashboard listens.
#[derive(Debug)]
pub struct HeavenWebConfig {
    pub listen_address: String,
}

/// How the controller reaches the broker.
#[derive(Debug)]
pub struct HeavenMQTTConfig {
    pub id: Option<String>,
    pub host: String,
    pub port: u16,
}

/// The inventory synchronizer's configuration.
#[derive(Debug)]
pub struct NetboxConfig {
    pub netbox: NetboxNBConfig,
    pub heaven: NetboxHeavenConfig,
}

/// How the synchronizer reaches the broker.
#[derive(Debug)]
pub struct NetboxHeavenConfig {
    pub id: String,
    pub host: String,
    pub port: u16,
}

/// Where the inventory lives and which status to push.
#[derive(Debug)]
pub struct NetboxNBConfig {
    pub token: String,
    pub url: String,
    pub target_status: String,
}

/// The port-hardware agent's configuration.
#[derive(Debug)]
pub struct OcthulhuConfig {
    pub heaven: OcthulhuHeavenConfig,
    pub network_serials: Vec<OcthulhuNetworkSerial>,
    pub port_mapping: Vec<(String, Vec<String>)>,
}

/// How the agent reaches the broker.
#[derive(Debug)]
pub struct OcthulhuHeavenConfig {
    pub id: String,
    pub host: String,
    pub port: u16,
}

/// A board reachable over TCP rather than USB.
#[derive(Debug)]
pub struct OcthulhuNetworkSerial {
    pub host: String,
    pub port: u16,
}

/// The first port list mapped to this board serial.
pub open spec fn spec_mapping_lookup(
    mapping: Seq<(String, Vec<String>)>,
    sn: Seq<char>,
) -> Option<int>
    decreases mapping.len(),
{
    if mapping.len() == 0 {
        None
    } else if mapping.first().0@ == sn {
        Some(0)
    } else {
        match spec_mapping_lookup(mapping.drop_first(), sn) {
            Some(i) => Some(i + 1),
            None => None,
        }
    }
}

impl OcthulhuConfig {
    /// The labels configured for the board with this serial, if any.
    #[verifier::loop_isolation(false)]
    pub fn mapping_for(&self, sn: &str) -> (r: Option<&Vec<String>>)
        ensures
            match r {
                Some(labels) => spec_mapping_lookup(self.port_mapping@, sn@) matches Some(i)
                    && labels == &self.port_mapping@[i].1,
                None => spec_mapping_lookup(self.port_mapping@, sn@) is None,
            },
    {
        proof {
            lemma_mapping_lookup(self.port_mapping@, sn@);
        }
        let n = self.port_mapping.len();
        for i in 0..n
            invariant
                n == self.port_mapping@.len(),
                forall|j: int| 0 <= j < i ==> self.port_mapping@[j].0@ != sn@,
        {
            if self.port_mapping[i].0 == String::from_str(sn) {
                return Some(&self.port_mapping[i].1);
            }
        }
        None
    }

    /// Whether this serial has a configured port mapping.
    pub fn has_mapping(&self, sn: &str) -> (r: bool)
        ensures
            r == (spec_mapping_lookup(self.port_mapping@, sn@) is Some),
    {
        self.mapping_for(sn).is_some()
    }
}

proof fn lemma_mapping_lookup(mapping: Seq<(String, Vec<String>)>, sn: Seq<char>)
    ensures
        match spec_mapping_lookup(mapping, sn) {
            Some(i) => 0 <= i < mapping.len() && mapping[i].0@ == sn && (forall|j: int|
                0 <= j < i ==> mapping[j].0@ != sn),
            None => forall|j: int| 0 <= j < mapping.len() ==> mapping[j].0@ != sn,
        },
    decreases mapping.len(),
{
    if mapping.len() > 0 {
        lemma_mapping_lookup(mapping.drop_first(), sn);
        let rest = mapping.drop_first();
        assert(forall|j: int| 0 <= j < rest.len() ==> #[trigger] rest[j] == mapping[j + 1]);
        if mapping.first().0@ != sn {
            match spec_mapping_lookup(rest, sn) {
                Some(i) => {
                    assert forall|j: int| 0 <= j < i + 1 implies mapping[j].0@ != sn by {
                        if j > 0 {
                            assert(rest[j - 1].0@ != sn);
                        }
                    }
                },
                None => {
                    assert forall|j: int| 0 <= j < mapping.len() implies mapping[j].0@ != sn by {
                        if j > 0 {
                            assert(rest[j - 1].0@ != sn);
                        }
                    }
                },
            }
        }
    }
}

/// One switch-driving host's configuration.
#[derive(Debug)]
pub struct AngelConfig {
    pub port: String,
    pub log_dir: Option<String>,
    pub active_states: Vec<String>,
    pub job_config: Vec<(String, String)>,
    pub heaven: Option<HeavenMQTTConfig>,
}

} // verus!
