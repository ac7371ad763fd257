//! The agent's configuration and the label header it advertises.
//!
//! Loading the configuration from files and the environment is I/O and
//! happens outside; this module holds the frozen shape the rest of the
//! agent consumes, the precedence rule for picking the configuration file,
//! and the rendering of the label map into its HTTP header value.

use crate::env::EnvVars;
use vstd::prelude::*;

verus! {

/// Result of percent-encoding a string for a URL or header value.  The
/// encoding is a pure function of the input; it is named here and stated
/// only by the trusted wrapper below.
pub uninterp spec fn url_encoded(s: Seq<char>) -> Seq<char>;

/// Relies on urlencoding::encode: percent-encodes every byte except ASCII
/// alphanumerics and `-`, `_`, `.`, `~`; the result depends on the input
/// string alone, and an empty input stays empty.
#[verifier::external_body]
fn url_encode(s: &str) -> (r: String)
    ensures
        r@ == url_encoded(s@),
        s@.len() == 0 ==> r@.len() == 0,
{
    urlencoding::encode(s).into_owned()
}

/// Labels the agent advertises to the control plane, as ordered pairs.
pub struct LabelMap(Vec<(String, String)>);

impl View for LabelMap {
    type V = Seq<(Seq<char>, Seq<char>)>;

    closed spec fn view(&self) -> Seq<(Seq<char>, Seq<char>)> {
        self.0@.map_values(|p: (String, String)| (p.0@, p.1@))
    }
}

/// The header rendering `k=v,k=v` of a label list, each key and value
/// percent-encoded.
pub open spec fn spec_label_header(s: Seq<(Seq<char>, Seq<char>)>) -> Seq<char>
    decreases s.len(),
{
    if s.len() == 0 {
        Seq::empty()
    } else if s.len() == 1 {
        url_encoded(s[0].0) + "="@ + url_encoded(s[0].1)
    } else {
        spec_label_header(s.drop_last()) + ","@ + url_encoded(s.last().0) + "="@ + url_encoded(
            s.last().1,
        )
    }
}

impl LabelMap {
    /// An empty label map.
    pub fn new() -> (r: LabelMap)
        ensures
            r@ == Seq::<(Seq<char>, Seq<char>)>::empty(),
    {
        let m = LabelMap(Vec::new());
        proof {
            assert(m@ =~= Seq::<(Seq<char>, Seq<char>)>::empty());
        }
        m
    }

    /// Appends one label.
    pub fn push(&mut self, name: String, value: String)
        ensures
            final(self)@ == old(self)@.push((name@, value@)),
    {
        self.0.push((name, value));
        proof {
            assert(self@ =~= old(self)@.push((name@, value@)));
        }
    }

    /// Convert a `LabelMap` to a string in the format "key=value,key=value".
    /// Both keys and values are URL-encoded.
    #[verifier::loop_isolation(false)]
    pub fn to_header_value(&self) -> (r: String)
        ensures
            r@ == spec_label_header(self@),
    {
        let mut out = String::new();
        let n = self.0.len();
        let mut i: usize = 0;
        while i < n
            invariant
                i <= n,
                n == self.0.len(),
                out@ == spec_label_header(self@.take(i as int)),
            decreases n - i,
        {
            proof {
                assert(self@[i as int] == (self.0@[i as int].0@, self.0@[i as int].1@));
                assert(self@.take(i + 1).drop_last() =~= self@.take(i as int));
                assert(self@.take(i + 1).last() == self@[i as int]);
                assert(self@.take(i + 1)[0] == self@[0]);
            }
            if i > 0 {
                out.append(",");
            }
            let key = url_encode(self.0[i].0.as_str());
            out.append(key.as_str());
            out.append("=");
            let value = url_encode(self.0[i].1.as_str());
            out.append(value.as_str());
            i = i + 1;
        }
        proof {
            assert(self@.take(n as int) =~= self@);
        }
        out
    }
}

/// Where the configuration file is taken from.
#[derive(Debug, Clone, Copy, PartialEq, Eq, Structural)]
pub enum ConfigSource {
    /// The path named by the override environment variable.
    Override,
    /// `foreman.toml` in the working directory.
    WorkingDirectory,
    /// The system-wide `/etc/foreman/foreman.toml`.
    SystemWide,
    /// `.foreman/foreman.toml` under the home directory.
    HomeDirectory,
    /// No configuration file; defaults and environment variables only.
    NoFile,
}

/// An override path that points at no file is a hard error.
#[derive(Debug, Clone, Copy, PartialEq, Eq, Structural)]
pub struct MissingOverrideFile;

/// The precedence rule for the configuration file: an explicit override
/// wins but must exist; otherwise the first of the working-directory,
/// system-wide and home-directory files that exists; otherwise none.
pub open spec fn spec_config_source(
    has_override: bool,
    override_exists: bool,
    cwd_exists: bool,
    system_exists: bool,
    home_exists: bool,
) -> Result<ConfigSource, MissingOverrideFile> {
    if has_override {
        if override_exists {
            Ok(ConfigSource::Override)
        } else {
            Err(MissingOverrideFile)
        }
    } else if cwd_exists {
        Ok(ConfigSource::WorkingDirectory)
    } else if system_exists {
        Ok(ConfigSource::SystemWide)
    } else if home_exists {
        Ok(ConfigSource::HomeDirectory)
    } else {
        Ok(ConfigSource::NoFile)
    }
}

/// Picks the configuration file from what the file system reports.
pub fn choose_config_source(
    has_override: bool,
    override_exists: bool,
    cwd_exists: bool,
    system_exists: bool,
    home_exists: bool,
) -> (r: Result<ConfigSource, MissingOverrideFile>)
    ensures
        r == spec_config_source(
            has_override,
            override_exists,
            cwd_exists,
            system_exists,
            home_exists,
        ),
{
    if has_override {
        if override_exists {
            Ok(ConfigSource::Override)
        } else {
            Err(MissingOverrideFile)
        }
    } else if cwd_exists {
        Ok(ConfigSource::WorkingDirectory)
    } else if system_exists {
        Ok(ConfigSource::SystemWide)
    } else if home_exists {
        Ok(ConfigSource::HomeDirectory)
    } else {
        Ok(ConfigSource::NoFile)
    }
}

/// Default milliseconds between polls.
pub const DEFAULT_POLL_FREQUENCY: u16 = 5000;

/// Default milliseconds allowed per poll request.
pub const DEFAULT_POLL_TIMEOUT: u16 = 30000;

/// Default port of the agent's own HTTP surface.
pub const DEFAULT_AGENT_PORT: u16 = 3000;

/// Default milliseconds before a running job is reaped as timed out.
pub const DEFAULT_JOB_COMPLETION_TIMEOUT: u64 = 10000;

/// Default milliseconds a stopped job ages before removal.
pub const DEFAULT_JOB_REMOVAL_TIMEOUT: u64 = 5000;

/// Default cap on concurrently running jobs.
pub const DEFAULT_MAX_CONCURRENT_JOBS: u64 = 12;

/// Default first host port handed to containers.
pub const DEFAULT_START_PORT: u16 = 49152;

/// Default last host port handed to containers.
pub const DEFAULT_END_PORT: u16 = 65535;

/// The agent's own settings.
pub struct Core {
    /// Control-plane poll endpoint.
    pub url: String,
    /// Host name containers use to reach the agent.
    pub hostname: String,
    /// Port of the agent's own HTTP surface.
    pub port: u16,
    /// Name of the container network jobs are attached to.
    pub network_name: String,
    /// Bearer token presented to the control plane.
    pub token: String,
    /// Milliseconds between polls.
    pub poll_frequency: u16,
    /// Milliseconds allowed per poll request.
    pub poll_timeout: u16,
    /// `host:ip` entries attached to every container.
    pub extra_hosts: Option<Vec<String>>,
    /// Labels advertised to the control plane.
    pub labels: Option<LabelMap>,
    /// Milliseconds before a running job counts as timed out.
    pub job_completion_timeout: u64,
    /// Milliseconds a stopped job ages before removal.
    pub job_removal_timeout: u64,
    /// Whether shutdown also removes stopped containers.
    pub remove_stopped_containers_on_terminate: bool,
    /// Cap on concurrently running jobs.
    pub max_concurrent_jobs: u64,
    /// Default environment merged into every container.
    pub env: Option<EnvVars>,
}

/// Settings of the container runtime connection.
pub struct Docker {
    /// Explicit runtime endpoint, when not the local default.
    pub url: Option<String>,
    /// First host port handed to containers.
    pub start_port: u16,
    /// Last host port handed to containers.
    pub end_port: u16,
}

/// Everything the agent is configured with.
pub struct Settings {
    pub core: Core,
    pub docker: Docker,
}

} // verus!
