//! The typed configuration the snippet is generated from, and the errors
//! generation can report.

use vstd::prelude::*;

verus! {

/// How user content is treated by session replay; serialized as the
/// lowercase, dash-separated word the browser agent expects.
#[derive(Clone, Copy, Debug, PartialEq, Eq, Structural)]
pub enum PrivacyLevel {
    /// Record content as it is.
    Allow,
    /// Mask all content.
    Mask,
    /// Mask only user input.
    MaskUserInput,
}

/// A value already in JSON source form, carried verbatim into the generated
/// snippet (its non-ASCII characters escaped like everything else).  This is
/// how numbers and forward-compatible unknown values travel through the
/// library: the caller serializes them once, the library treats the text as
/// opaque JSON.
#[derive(Clone, Debug, PartialEq, Eq)]
pub struct JsonFragment(pub String);

/// The RUM (real user monitoring) sub-configuration: what the generated
/// snippet passes to the agent's `init` call.  Optional fields that are
/// absent are left out of the emitted object entirely.
#[derive(Debug)]
pub struct RumConfiguration {
    /// Required application identifier; emitted as `applicationId`.
    pub application_id: String,
    /// Required client token; emitted as `clientToken`.
    pub client_token: String,
    /// Intake site; also selects the CDN region.  Absent means
    /// `datadoghq.com`.
    pub site: Option<String>,
    /// Service name; emitted as `service`.
    pub service: Option<String>,
    /// Deployment environment; emitted as `env`.
    pub env: Option<String>,
    /// Application version; emitted as `version`.
    pub version: Option<String>,
    /// Emitted as `trackUserInteractions`.
    pub track_user_interactions: Option<bool>,
    /// Emitted as `trackResources`.
    pub track_resources: Option<bool>,
    /// Emitted as `trackLongTask`.
    pub track_long_task: Option<bool>,
    /// Emitted as `defaultPrivacyLevel`.
    pub default_privacy_level: Option<PrivacyLevel>,
    /// Emitted as `sessionSampleRate`; a JSON number in source form.
    pub session_sample_rate: Option<JsonFragment>,
    /// Emitted as `sessionReplaySampleRate`; a JSON number in source form.
    pub session_replay_sample_rate: Option<JsonFragment>,
    /// Open, forward-compatible mapping: each `(key, value)` pair is emitted
    /// verbatim after the known fields, in the order given.
    pub other: Vec<(String, JsonFragment)>,
}

impl Default for RumConfiguration {
    /// The empty configuration: required identifiers empty, every optional
    /// field absent.
    fn default() -> (r: RumConfiguration)
        ensures
            r.application_id@ == Seq::<char>::empty(),
            r.client_token@ == Seq::<char>::empty(),
            r.site is None,
            r.service is None,
            r.env is None,
            r.version is None,
            r.track_user_interactions is None,
            r.track_resources is None,
            r.track_long_task is None,
            r.default_privacy_level is None,
            r.session_sample_rate is None,
            r.session_replay_sample_rate is None,
            r.other@ == Seq::<(String, JsonFragment)>::empty(),
    {
        RumConfiguration {
            application_id: String::new(),
            client_token: String::new(),
            site: None,
            service: None,
            env: None,
            version: None,
            track_user_interactions: None,
            track_resources: None,
            track_long_task: None,
            default_privacy_level: None,
            session_sample_rate: None,
            session_replay_sample_rate: None,
            other: Vec::new(),
        }
    }
}

/// The whole configuration handed to snippet generation.
#[derive(Debug)]
pub struct Configuration {
    /// Major version of the browser agent; selects the CDN artifact.
    pub major_version: u32,
    /// The RUM sub-configuration serialized into the snippet.
    pub rum: RumConfiguration,
}

/// Errors of snippet generation: deterministic configuration problems,
/// surfaced before any byte is produced.
#[derive(Clone, Debug, PartialEq, Eq)]
pub enum Error {
    /// The configured `site` is not one of the supported intake domains.
    UnsupportedSite(String),
}

} // verus!
