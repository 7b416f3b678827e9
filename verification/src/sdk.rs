//! The plugin-side SDK: how an instance answers a configuration change
//! (hot apply, recreate, or reject), and the traits a plugin implements for
//! source catalogs, streams and lyrics providers.
use vstd::prelude::*;

verus! {

/// An error that plugin code reports to the host.
#[derive(Debug)]
pub struct SdkError {
    pub message: String,
}

impl SdkError {
    pub fn msg(message: &str) -> (e: SdkError)
        ensures
            e.message@ == message@,
    {
        SdkError { message: String::from_str(message) }
    }
}

/// The status a plugin entry point returns: code 0 is success.
#[derive(Debug, Clone, Copy, PartialEq, Eq, Structural)]
pub struct StStatus {
    pub code: i32,
}

impl StStatus {
    pub fn ok() -> (s: StStatus)
        ensures
            s.code == 0,
    {
        StStatus { code: 0 }
    }
}

/// How a configuration change is taken.
#[derive(Debug, Clone, Copy, PartialEq, Eq, Structural)]
pub enum StConfigUpdateMode {
    HotApply,
    Recreate,
    Reject,
}

/// A plugin's answer to a configuration change.
#[derive(Debug)]
pub enum UpdatePlan {
    HotApply,
    Recreate,
    Reject { reason: String },
}

impl UpdatePlan {
    pub fn hot_apply() -> (p: UpdatePlan)
        ensures
            p is HotApply,
    {
        UpdatePlan::HotApply
    }

    pub fn recreate() -> (p: UpdatePlan)
        ensures
            p is Recreate,
    {
        UpdatePlan::Recreate
    }

    pub fn reject(reason: String) -> (p: UpdatePlan)
        ensures
            p matches UpdatePlan::Reject { reason: r } && r@ == reason@,
    {
        UpdatePlan::Reject { reason }
    }
}

/// The status a plan is reported with: every plan, a rejection too, is a
/// successful answer.
pub fn mode_to_status(plan: &UpdatePlan) -> (s: StStatus)
    ensures
        s.code == 0,
{
    match plan {
        UpdatePlan::HotApply | UpdatePlan::Recreate => StStatus::ok(),
        UpdatePlan::Reject { .. } => StStatus::ok(),
    }
}

/// A plan as it crosses to the host: the mode, and the reason text (empty
/// where there is none).
#[derive(Debug)]
pub struct StConfigUpdatePlan {
    pub mode: StConfigUpdateMode,
    pub reason_utf8: String,
}

/// Converts a plan into the form it crosses to the host in.
pub fn plan_to_ffi(plan: UpdatePlan) -> (f: StConfigUpdatePlan)
    ensures
        match plan {
            UpdatePlan::HotApply => f.mode == StConfigUpdateMode::HotApply && f.reason_utf8@.len()
                == 0,
            UpdatePlan::Recreate => f.mode == StConfigUpdateMode::Recreate && f.reason_utf8@.len()
                == 0,
            UpdatePlan::Reject { reason } => f.mode == StConfigUpdateMode::Reject && f.reason_utf8@
                == reason@,
        },
{
    match plan {
        UpdatePlan::HotApply => StConfigUpdatePlan {
            mode: StConfigUpdateMode::HotApply,
            reason_utf8: String::new(),
        },
        UpdatePlan::Recreate => StConfigUpdatePlan {
            mode: StConfigUpdateMode::Recreate,
            reason_utf8: String::new(),
        },
        UpdatePlan::Reject { reason } => StConfigUpdatePlan {
            mode: StConfigUpdateMode::Reject,
            reason_utf8: reason,
        },
    }
}

/// A plan as the host reads it: the mode and a reason where one was given.
#[derive(Debug)]
pub struct ConfigUpdatePlan {
    pub mode: StConfigUpdateMode,
    pub reason: Option<String>,
}

/// Reads a plan that crossed from a plugin: an empty reason is no reason.
pub fn plan_from_ffi(plan: StConfigUpdatePlan) -> (p: ConfigUpdatePlan)
    ensures
        p.mode == plan.mode,
        match p.reason {
            Some(r) => r@ == plan.reason_utf8@ && r@.len() > 0,
            None => plan.reason_utf8@.len() == 0,
        },
{
    let reason = if plan.reason_utf8.as_str().is_empty() {
        None
    } else {
        Some(plan.reason_utf8)
    };
    ConfigUpdatePlan { mode: plan.mode, reason }
}

/// What the host does with an instance after a plan.
#[derive(Debug, Clone, Copy, PartialEq, Eq, Structural)]
pub enum InstanceUpdateDecision {
    HotApply,
    Recreate,
    Reject,
}

pub fn decision_from_plan(plan: &ConfigUpdatePlan) -> (d: InstanceUpdateDecision)
    ensures
        plan.mode == StConfigUpdateMode::HotApply ==> d == InstanceUpdateDecision::HotApply,
        plan.mode == StConfigUpdateMode::Recreate ==> d == InstanceUpdateDecision::Recreate,
        plan.mode == StConfigUpdateMode::Reject ==> d == InstanceUpdateDecision::Reject,
{
    match plan.mode {
        StConfigUpdateMode::HotApply => InstanceUpdateDecision::HotApply,
        StConfigUpdateMode::Recreate => InstanceUpdateDecision::Recreate,
        StConfigUpdateMode::Reject => InstanceUpdateDecision::Reject,
    }
}

/// A plan survives the crossing: the host reads the mode the plugin chose,
/// and the rejection reason where it is not empty.
pub proof fn law_plan_crossing(plan: UpdatePlan, wire: StConfigUpdatePlan, read: ConfigUpdatePlan)
    requires
        match plan {
            UpdatePlan::HotApply => wire.mode == StConfigUpdateMode::HotApply
                && wire.reason_utf8@.len() == 0,
            UpdatePlan::Recreate => wire.mode == StConfigUpdateMode::Recreate
                && wire.reason_utf8@.len() == 0,
            UpdatePlan::Reject { reason } => wire.mode == StConfigUpdateMode::Reject
                && wire.reason_utf8@ == reason@,
        },
        read.mode == wire.mode,
        match read.reason {
            Some(r) => r@ == wire.reason_utf8@ && r@.len() > 0,
            None => wire.reason_utf8@.len() == 0,
        },
    ensures
        match plan {
            UpdatePlan::HotApply => read.mode == StConfigUpdateMode::HotApply && read.reason is None,
            UpdatePlan::Recreate => read.mode == StConfigUpdateMode::Recreate && read.reason is None,
            UpdatePlan::Reject { reason } => read.mode == StConfigUpdateMode::Reject && (if reason@.len()
                == 0 {
                read.reason is None
            } else {
                read.reason matches Some(r) && r@ == reason@
            }),
        },
{
}

/// How an instance takes configuration changes. The defaults recreate the
/// instance for every change and move no state.
pub trait ConfigUpdatable: Sized {
    /// Decides whether the incoming config can be hot-applied, needs a
    /// recreate, or is rejected.
    fn plan_config_update_json(&self, new_config_json: &str) -> (r: Result<UpdatePlan, SdkError>)
        default_ensures
            r matches Ok(p) && p is Recreate,
    {
        Ok(UpdatePlan::Recreate)
    }

    /// Applies a hot config update in place.
    fn apply_config_update_json(&mut self, new_config_json: &str) -> (r: Result<(), SdkError>)
        default_ensures
            r matches Err(e) && e.message@ == "hot config update unsupported"@,
            *final(self) == *old(self),
    {
        Err(SdkError::msg("hot config update unsupported"))
    }

    /// Exports the state a recreated instance takes over; `None` moves none.
    fn export_state_json(&self) -> (r: Result<Option<String>, SdkError>)
        default_ensures
            r matches Ok(s) && s is None,
    {
        Ok(None)
    }

    /// Imports state exported by the instance this one replaces.
    fn import_state_json(&mut self, state_json: &str) -> (r: Result<(), SdkError>)
        default_ensures
            r is Ok,
            *final(self) == *old(self),
    {
        Ok(())
    }
}

/// A plugin's answer to a configuration change (second plugin ABI).
#[derive(Debug)]
pub enum UpdatePlanV2 {
    HotApply,
    Recreate,
    Reject { reason: String },
}

impl UpdatePlanV2 {
    pub fn hot_apply() -> (p: UpdatePlanV2)
        ensures
            p is HotApply,
    {
        UpdatePlanV2::HotApply
    }

    pub fn recreate() -> (p: UpdatePlanV2)
        ensures
            p is Recreate,
    {
        UpdatePlanV2::Recreate
    }

    pub fn reject(reason: String) -> (p: UpdatePlanV2)
        ensures
            p matches UpdatePlanV2::Reject { reason: r } && r@ == reason@,
    {
        UpdatePlanV2::Reject { reason }
    }
}

/// The status a plan is reported with (second plugin ABI): always success.
pub fn mode_to_status_v2(plan: &UpdatePlanV2) -> (s: StStatus)
    ensures
        s.code == 0,
{
    match plan {
        UpdatePlanV2::HotApply | UpdatePlanV2::Recreate => StStatus::ok(),
        UpdatePlanV2::Reject { .. } => StStatus::ok(),
    }
}

/// Converts a plan of the second plugin ABI into the form it crosses in.
pub fn plan_to_ffi_v2(plan: UpdatePlanV2) -> (f: StConfigUpdatePlan)
    ensures
        match plan {
            UpdatePlanV2::HotApply => f.mode == StConfigUpdateMode::HotApply
                && f.reason_utf8@.len() == 0,
            UpdatePlanV2::Recreate => f.mode == StConfigUpdateMode::Recreate
                && f.reason_utf8@.len() == 0,
            UpdatePlanV2::Reject { reason } => f.mode == StConfigUpdateMode::Reject
                && f.reason_utf8@ == reason@,
        },
{
    match plan {
        UpdatePlanV2::HotApply => StConfigUpdatePlan {
            mode: StConfigUpdateMode::HotApply,
            reason_utf8: String::new(),
        },
        UpdatePlanV2::Recreate => StConfigUpdatePlan {
            mode: StConfigUpdateMode::Recreate,
            reason_utf8: String::new(),
        },
        UpdatePlanV2::Reject { reason } => StConfigUpdatePlan {
            mode: StConfigUpdateMode::Reject,
            reason_utf8: reason,
        },
    }
}

/// How an instance of the second plugin ABI takes configuration changes.
pub trait ConfigUpdatableV2: Sized {
    fn plan_config_update_json(&self, new_config_json: &str) -> (r: Result<UpdatePlanV2, SdkError>)
        default_ensures
            r matches Ok(p) && p is Recreate,
    {
        Ok(UpdatePlanV2::Recreate)
    }

    fn apply_config_update_json(&mut self, new_config_json: &str) -> (r: Result<(), SdkError>)
        default_ensures
            r matches Err(e) && e.message@ == "hot config update unsupported"@,
            *final(self) == *old(self),
    {
        Err(SdkError::msg("hot config update unsupported"))
    }

    fn export_state_json(&self) -> (r: Result<Option<String>, SdkError>)
        default_ensures
            r matches Ok(s) && s is None,
    {
        Ok(None)
    }

    fn import_state_json(&mut self, state_json: &str) -> (r: Result<(), SdkError>)
        default_ensures
            r is Ok,
            *final(self) == *old(self),
    {
        Ok(())
    }
}

/// Where a seek is measured from.
#[derive(Debug, Clone, Copy, PartialEq, Eq, Structural)]
pub enum StSeekWhence {
    Start,
    Current,
    End,
}

/// A decoder's preference for a file extension: the lowercase extension
/// without its dot (`*` for any) and a score, higher winning.
#[derive(Debug, Clone, Copy, PartialEq, Eq)]
pub struct DecoderExtScoreRuleV2 {
    pub ext: &'static str,
    pub score: u16,
}

/// A byte stream that a source plugin opens for the host.
pub trait SourceStreamV2 {
    fn read(&mut self, out: &mut [u8]) -> Result<usize, SdkError>;

    fn seek(&mut self, offset: i64, whence: StSeekWhence) -> (r: Result<u64, SdkError>)
        default_ensures
            r matches Err(e) && e.message@ == "seek unsupported"@,
    {
        Err(SdkError::msg("seek unsupported"))
    }

    fn tell(&mut self) -> (r: Result<u64, SdkError>)
        default_ensures
            r matches Err(e) && e.message@ == "tell unsupported"@,
    {
        Err(SdkError::msg("tell unsupported"))
    }

    fn size(&mut self) -> (r: Result<u64, SdkError>)
        default_ensures
            r matches Err(e) && e.message@ == "size unsupported"@,
    {
        Err(SdkError::msg("size unsupported"))
    }
}

/// An opened stream with the track metadata that came with it.
pub struct SourceOpenResultV2<S: SourceStreamV2> {
    pub stream: S,
    pub track_meta_json: Option<String>,
}

impl<S: SourceStreamV2> SourceOpenResultV2<S> {
    pub fn new(stream: S) -> (r: SourceOpenResultV2<S>)
        ensures
            r.stream == stream,
            r.track_meta_json is None,
    {
        SourceOpenResultV2 { stream, track_meta_json: None }
    }

    pub fn with_track_meta_json(self, track_meta_json: String) -> (r: SourceOpenResultV2<S>)
        ensures
            r.stream == self.stream,
            r.track_meta_json matches Some(m) && m@ == track_meta_json@,
    {
        SourceOpenResultV2 { stream: self.stream, track_meta_json: Some(track_meta_json) }
    }
}

/// A source catalog instance: lists items and opens their streams.
pub trait SourceCatalogInstanceV2: ConfigUpdatableV2 {
    type Stream: SourceStreamV2;

    fn list_items_json(&mut self, request_json: &str) -> Result<String, SdkError>;

    fn open_stream_json(&mut self, track_json: &str) -> Result<
        SourceOpenResultV2<Self::Stream>,
        SdkError,
    >;

    fn close_stream(&mut self, stream: &mut Self::Stream) -> (r: Result<(), SdkError>)
        default_ensures
            r is Ok,
    {
        Ok(())
    }
}

/// A lyrics provider instance.
pub trait LyricsProviderInstanceV2: ConfigUpdatableV2 {
    fn search_json(&mut self, query_json: &str) -> Result<String, SdkError>;

    fn fetch_json(&mut self, track_json: &str) -> Result<String, SdkError>;
}

/// The box a source catalog instance lives in on the plugin side.
pub struct SourceCatalogBoxV2<T: SourceCatalogInstanceV2> {
    pub inner: T,
}

/// The box a source stream lives in on the plugin side.
pub struct SourceStreamBoxV2<T: SourceStreamV2> {
    pub inner: T,
}

/// The box a lyrics provider instance lives in on the plugin side.
pub struct LyricsProviderBoxV2<T: LyricsProviderInstanceV2> {
    pub inner: T,
}

} // verus!
