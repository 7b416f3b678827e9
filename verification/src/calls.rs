//! Calls into a plugin instance: which thread owns an instance, how many
//! calls a generation has in flight, how a plugin status becomes an error,
//! how an asynchronous plugin operation is awaited, and what a config update
//! plan makes the host do.
use std::collections::BTreeMap;
use vstd::prelude::*;
use crate::sdk::{ConfigUpdatePlan, StConfigUpdateMode, StStatus};
use crate::text::{chars_of, dec_digits, push_decimal, push_str, string_of};

verus! {

/// The decimal text of a signed integer.
pub open spec fn signed_dec(n: int) -> Seq<char> {
    if n < 0 {
        seq!['-'] + dec_digits((-n) as nat)
    } else {
        dec_digits(n as nat)
    }
}

/// Appends the decimal text of `n` to `out`.
pub fn push_signed_decimal(out: &mut Vec<char>, n: i64)
    ensures
        final(out)@ == old(out)@ + signed_dec(n as int),
{
    if n < 0 {
        out.push('-');
        let m: u64 = (0i128 - n as i128) as u64;
        push_decimal(out, m);
        assert(final(out)@ =~= old(out)@ + signed_dec(n as int));
    } else {
        push_decimal(out, n as u64);
    }
}

/// The text of a failed plugin status: what failed, the code, and the
/// plugin's message where it gave one.
pub open spec fn status_text(what: Seq<char>, code: int, message: Seq<char>) -> Seq<char> {
    let head = what + " failed (code="@ + signed_dec(code) + ")"@;
    if message.len() == 0 {
        head
    } else {
        head + ": "@ + message
    }
}

/// Renders a failed plugin status.
pub fn status_error_text(what: &str, code: i32, message: &str) -> (s: String)
    ensures
        s@ == status_text(what@, code as int, message@),
{
    let mut v = chars_of(what);
    let tail1 = chars_of(" failed (code=");
    let mut i: usize = 0;
    let ghost v0 = v@;
    while i < tail1.len()
        invariant
            i <= tail1@.len(),
            v@ == v0 + tail1@.take(i as int),
        decreases tail1@.len() - i,
    {
        v.push(tail1[i]);
        i = i + 1;
        assert(v@ =~= v0 + tail1@.take(i as int));
    }
    assert(tail1@.take(tail1@.len() as int) =~= tail1@);
    push_signed_decimal(&mut v, code as i64);
    v.push(')');
    let m = chars_of(message);
    if m.len() > 0 {
        v.push(':');
        v.push(' ');
        let ghost v1 = v@;
        let mut j: usize = 0;
        while j < m.len()
            invariant
                j <= m@.len(),
                v@ == v1 + m@.take(j as int),
            decreases m@.len() - j,
        {
            v.push(m[j]);
            j = j + 1;
            assert(v@ =~= v1 + m@.take(j as int));
        }
        assert(m@.take(m@.len() as int) =~= m@);
    }
    proof {
        reveal_strlit(" failed (code=");
        reveal_strlit(")");
        reveal_strlit(": ");
        assert(v@ =~= status_text(what@, code as int, message@));
    }
    string_of(&v)
}

/// A plugin status as a result: code 0 is success, any other code an error
/// whose text names `what`, the code and the plugin's message.
pub fn status_to_result(what: &str, status: StStatus, message: &str) -> (r: Result<(), String>)
    ensures
        status.code == 0 ==> r is Ok,
        status.code != 0 ==> (r matches Err(e) && e@ == status_text(
            what@,
            status.code as int,
            message@,
        )),
{
    if status.code == 0 {
        return Ok(());
    }
    Err(status_error_text(what, status.code, message))
}

/// What a call from a thread finds out about the instance's owner.
#[derive(Debug, Clone, Copy, PartialEq, Eq, Structural)]
pub enum OwnerCheck {
    /// The calling thread owns the instance (it may just have claimed it).
    Owner,
    /// Another thread owns it; `report` is set on the first such call only.
    Mismatch { owner: usize, report: bool },
}

/// The thread that first calls an instance owns it; calls from other threads
/// are mismatches, reported once.
#[derive(Debug)]
pub struct InstanceCallOwner {
    owner_thread_token: usize,
    mismatch_logged: bool,
}

/// One call's effect on the owner state `(owner, reported)`: token 0 means
/// unclaimed.
pub open spec fn owner_step(owner: usize, reported: bool, caller: usize) -> (usize, bool, OwnerCheck) {
    if owner == 0 {
        (caller, reported, OwnerCheck::Owner)
    } else if owner == caller {
        (owner, reported, OwnerCheck::Owner)
    } else {
        (owner, true, OwnerCheck::Mismatch { owner, report: !reported })
    }
}

impl InstanceCallOwner {
    pub closed spec fn owner_spec(&self) -> usize {
        self.owner_thread_token
    }

    pub closed spec fn reported_spec(&self) -> bool {
        self.mismatch_logged
    }

    /// An owner record that no thread has claimed.
    pub fn new() -> (o: InstanceCallOwner)
        ensures
            o.owner_spec() == 0,
            !o.reported_spec(),
    {
        InstanceCallOwner { owner_thread_token: 0, mismatch_logged: false }
    }

    /// Checks a call from the thread whose token is `caller` (never 0). A
    /// call from a thread other than the owner is a caller's error that a
    /// build with debug assertions stops on; here it is the behaviour of a
    /// build without them that is given: the call goes on, the owner stays,
    /// and only the first such call is to be reported.
    pub fn assert_current_thread(&mut self, caller: usize) -> (r: OwnerCheck)
        requires
            caller != 0,
        ensures
            (final(self).owner_spec(), final(self).reported_spec(), r) == owner_step(
                old(self).owner_spec(),
                old(self).reported_spec(),
                caller,
            ),
    {
        if self.owner_thread_token == 0 {
            self.owner_thread_token = caller;
            return OwnerCheck::Owner;
        }
        if self.owner_thread_token == caller {
            return OwnerCheck::Owner;
        }
        let report = !self.mismatch_logged;
        self.mismatch_logged = true;
        OwnerCheck::Mismatch { owner: self.owner_thread_token, report }
    }
}

/// The first thread to call owns the instance for good: a later call from
/// another thread is a mismatch, and only the first mismatch is reported.
pub proof fn law_first_caller_owns(first: usize, other: usize, later: usize)
    requires
        first != 0,
        other != 0,
        later != 0,
        other != first,
        later != first,
    ensures
        ({
            let s1 = owner_step(0, false, first);
            let s2 = owner_step(s1.0, s1.1, other);
            let s3 = owner_step(s2.0, s2.1, later);
            &&& s1.2 == OwnerCheck::Owner
            &&& s2.2 == OwnerCheck::Mismatch { owner: first, report: true }
            &&& s3.2 == OwnerCheck::Mismatch { owner: first, report: false }
            &&& owner_step(s3.0, s3.1, first).2 == OwnerCheck::Owner
        }),
{
}

/// Once an instance is claimed, every call keeps its owner: a call from the
/// owner is never a mismatch and changes nothing, and the first call of all
/// claims the instance for its caller.
pub proof fn law_owner_is_kept(owner: usize, reported: bool, caller: usize)
    requires
        caller != 0,
    ensures
        owner != 0 ==> owner_step(owner, reported, caller).0 == owner,
        owner != 0 ==> owner_step(owner, reported, owner) == (owner, reported, OwnerCheck::Owner),
        owner == 0 ==> owner_step(owner, reported, caller) == (caller, reported, OwnerCheck::Owner),
{
}

/// The text a mismatch is reported with.
pub open spec fn mismatch_text(instance_id: u64, owner: usize, caller: usize) -> Seq<char> {
    "instance "@ + dec_digits(instance_id as nat) + " called from non-owner thread (owner_token="@
        + dec_digits(owner as nat) + ", caller_token="@ + dec_digits(caller as nat) + ")"@
}

/// Renders the report of a call from a thread that does not own the
/// instance.
pub fn mismatch_message(instance_id: u64, owner: usize, caller: usize) -> (s: String)
    ensures
        s@ == mismatch_text(instance_id, owner, caller),
{
    let mut v: Vec<char> = Vec::new();
    push_str(&mut v, "instance ");
    push_decimal(&mut v, instance_id);
    push_str(&mut v, " called from non-owner thread (owner_token=");
    push_decimal(&mut v, owner as u64);
    push_str(&mut v, ", caller_token=");
    push_decimal(&mut v, caller as u64);
    push_str(&mut v, ")");
    assert(v@ =~= mismatch_text(instance_id, owner, caller));
    string_of(&v)
}

/// The calls in flight on one generation of a plugin.
#[derive(Debug)]
pub struct GenerationGuard {
    generation: u64,
    inflight_calls: usize,
}

/// Held for the length of one call on a generation.
#[derive(Debug)]
pub struct GenerationCallGuard {
    generation: u64,
}

impl GenerationGuard {
    pub closed spec fn generation_spec(&self) -> u64 {
        self.generation
    }

    pub closed spec fn inflight_spec(&self) -> usize {
        self.inflight_calls
    }

    pub fn new(generation: u64) -> (g: GenerationGuard)
        ensures
            g.generation_spec() == generation,
            g.inflight_spec() == 0,
    {
        GenerationGuard { generation, inflight_calls: 0 }
    }

    pub fn generation(&self) -> (n: u64)
        ensures
            n == self.generation_spec(),
    {
        self.generation
    }

    pub fn inflight_calls(&self) -> (n: usize)
        ensures
            n == self.inflight_spec(),
    {
        self.inflight_calls
    }
}

impl GenerationCallGuard {
    pub closed spec fn generation_spec(&self) -> u64 {
        self.generation
    }

    /// Starts a call on `generation`: one more call is in flight.
    pub fn enter(generation: &mut GenerationGuard) -> (g: GenerationCallGuard)
        requires
            old(generation).inflight_spec() < usize::MAX,
        ensures
            final(generation).inflight_spec() == old(generation).inflight_spec() + 1,
            final(generation).generation_spec() == old(generation).generation_spec(),
            g.generation_spec() == old(generation).generation_spec(),
    {
        generation.inflight_calls = generation.inflight_calls + 1;
        GenerationCallGuard { generation: generation.generation }
    }

    /// Ends the call: one call fewer is in flight.
    pub fn leave(self, generation: &mut GenerationGuard)
        requires
            self.generation_spec() == old(generation).generation_spec(),
            old(generation).inflight_spec() > 0,
        ensures
            final(generation).inflight_spec() == old(generation).inflight_spec() - 1,
            final(generation).generation_spec() == old(generation).generation_spec(),
    {
        generation.inflight_calls = generation.inflight_calls - 1;
    }
}

/// A call that enters a generation (`enter`: `before` to `during`, handing
/// out `guard`) and then leaves it (`leave`: `during` to `after`) can always
/// leave, since the guard is the generation's and a call is in flight, and
/// leaves the generation and its count as they were.
pub proof fn law_enter_leave_balances(
    before: GenerationGuard,
    during: GenerationGuard,
    guard: GenerationCallGuard,
    after: GenerationGuard,
)
    requires
        before.inflight_spec() < usize::MAX,
        during.inflight_spec() == before.inflight_spec() + 1,
        during.generation_spec() == before.generation_spec(),
        guard.generation_spec() == before.generation_spec(),
        after.inflight_spec() == during.inflight_spec() - 1,
        after.generation_spec() == during.generation_spec(),
    ensures
        guard.generation_spec() == during.generation_spec(),
        during.inflight_spec() > 0,
        after.inflight_spec() == before.inflight_spec(),
        after.generation_spec() == before.generation_spec(),
{
}

/// The live instances, by id.
#[derive(Debug)]
pub struct InstanceRegistry {
    ids: Vec<u64>,
}

impl InstanceRegistry {
    pub closed spec fn ids_spec(&self) -> Set<u64> {
        self.ids@.to_set()
    }

    pub fn new() -> (r: InstanceRegistry)
        ensures
            r.ids_spec() == Set::<u64>::empty(),
    {
        let r = InstanceRegistry { ids: Vec::new() };
        assert(r.ids@.to_set() =~= Set::<u64>::empty());
        r
    }

    pub fn contains(&self, id: u64) -> (b: bool)
        ensures
            b == self.ids_spec().contains(id),
    {
        let mut i: usize = 0;
        while i < self.ids.len()
            invariant
                i <= self.ids@.len(),
                forall|j: int| 0 <= j < i ==> self.ids@[j] != id,
            decreases self.ids@.len() - i,
        {
            if self.ids[i] == id {
                assert(self.ids@.contains(id));
                return true;
            }
            i = i + 1;
        }
        assert(!self.ids@.contains(id));
        false
    }

    /// Adds `id` to the live instances.
    pub fn insert(&mut self, id: u64)
        ensures
            final(self).ids_spec() == old(self).ids_spec().insert(id),
    {
        self.ids.push(id);
        assert(self.ids@.to_set() =~= old(self).ids@.to_set().insert(id)) by {
            assert forall|x: u64| self.ids@.contains(x) <==> (old(self).ids@.contains(x) || x
                == id) by {
                if self.ids@.contains(x) {
                    let k = choose|k: int| 0 <= k < self.ids@.len() && self.ids@[k] == x;
                    if k < old(self).ids@.len() {
                        assert(old(self).ids@[k] == x);
                    }
                }
                if old(self).ids@.contains(x) {
                    let k = choose|k: int| 0 <= k < old(self).ids@.len() && old(self).ids@[k] == x;
                    assert(self.ids@[k] == x);
                }
                if x == id {
                    assert(self.ids@[self.ids@.len() - 1] == x);
                }
            }
        }
    }

    /// Removes `id`; says whether it was live.
    pub fn remove(&mut self, id: u64) -> (was: bool)
        ensures
            was == old(self).ids_spec().contains(id),
            final(self).ids_spec() == old(self).ids_spec().remove(id),
    {
        let was = self.contains(id);
        let mut kept: Vec<u64> = Vec::new();
        let mut i: usize = 0;
        while i < self.ids.len()
            invariant
                i <= self.ids@.len(),
                forall|j: int|
                    0 <= j < kept@.len() ==> #[trigger] kept@[j] != id && exists|k: int|
                        0 <= k < i && self.ids@[k] == kept@[j],
                forall|k: int| 0 <= k < i && #[trigger] self.ids@[k] != id ==> kept@.contains(self.ids@[k]),
            decreases self.ids@.len() - i,
        {
            let x = self.ids[i];
            let ghost before = kept@;
            if x != id {
                kept.push(x);
                proof {
                    assert(kept@[kept@.len() - 1] == x);
                    assert forall|j: int| 0 <= j < kept@.len() implies #[trigger] kept@[j] != id
                        && exists|k: int| 0 <= k < i + 1 && self.ids@[k] == kept@[j] by {
                        if j < before.len() {
                            assert(kept@[j] == before[j]);
                        } else {
                            assert(self.ids@[i as int] == kept@[j]);
                        }
                    }
                    assert forall|k: int| 0 <= k < i + 1 && #[trigger] self.ids@[k] != id implies kept@.contains(
                        self.ids@[k],
                    ) by {
                        if k < i {
                            assert(before.contains(self.ids@[k]));
                            let j = choose|j: int| 0 <= j < before.len() && before[j] == self.ids@[k];
                            assert(kept@[j] == self.ids@[k]);
                        } else {
                            assert(kept@[kept@.len() - 1] == self.ids@[k]);
                        }
                    }
                }
            }
            i = i + 1;
        }
        let ghost old_ids = self.ids@;
        proof {
            assert forall|x: u64| kept@.contains(x) <==> (old_ids.contains(x) && x != id) by {
                if kept@.contains(x) {
                    let j = choose|j: int| 0 <= j < kept@.len() && kept@[j] == x;
                    assert(kept@[j] != id);
                    let k = choose|k: int| 0 <= k < old_ids.len() && old_ids[k] == kept@[j];
                    assert(old_ids.contains(x));
                }
                if old_ids.contains(x) && x != id {
                    let k = choose|k: int| 0 <= k < old_ids.len() && old_ids[k] == x;
                    assert(old_ids[k] != id);
                }
            }
        }
        self.ids = kept;
        assert(self.ids@.to_set() =~= old_ids.to_set().remove(id));
        was
    }
}

/// Where a call on an instance runs: the instance, its owner record and the
/// generation it belongs to.
#[derive(Debug)]
pub struct InstanceRuntimeCtx {
    pub instance_id: u64,
    pub owner: InstanceCallOwner,
    pub generation: GenerationGuard,
}

impl InstanceRuntimeCtx {
    /// Starts a call from the thread `caller`: the owner is checked and one
    /// more call is in flight on the generation. As for
    /// `assert_current_thread`, a call from another thread is given as a
    /// build without debug assertions runs it: it is counted like any other.
    pub fn begin_call(&mut self, caller: usize) -> (r: (OwnerCheck, GenerationCallGuard))
        requires
            caller != 0,
            old(self).generation.inflight_spec() < usize::MAX,
        ensures
            (final(self).owner.owner_spec(), final(self).owner.reported_spec(), r.0) == owner_step(
                old(self).owner.owner_spec(),
                old(self).owner.reported_spec(),
                caller,
            ),
            final(self).generation.inflight_spec() == old(self).generation.inflight_spec() + 1,
            final(self).generation.generation_spec() == old(self).generation.generation_spec(),
            r.1.generation_spec() == old(self).generation.generation_spec(),
            final(self).instance_id == old(self).instance_id,
    {
        let check = self.owner.assert_current_thread(caller);
        let guard = GenerationCallGuard::enter(&mut self.generation);
        (check, guard)
    }

    /// Takes the instance out of the live instances and closes its pending
    /// config update.
    pub fn unregister(&self, instances: &mut InstanceRegistry, updates: &mut InstanceRegistry)
        ensures
            final(instances).ids_spec() == old(instances).ids_spec().remove(self.instance_id),
            final(updates).ids_spec() == old(updates).ids_spec().remove(self.instance_id),
    {
        let _ = instances.remove(self.instance_id);
        let _ = updates.remove(self.instance_id);
    }
}

/// The state of an asynchronous plugin operation.
#[derive(Debug, Clone, Copy, PartialEq, Eq, Structural)]
pub enum AsyncOpState {
    Pending,
    Ready,
    Cancelled,
    Failed,
}

/// What waiting on an operation does after one wait slice.
#[derive(Debug, Clone, Copy, PartialEq, Eq, Structural)]
pub enum OpWaitStep {
    /// The operation settled in this state.
    Settled(AsyncOpState),
    /// Wait another slice.
    WaitMore,
    /// Cancel the operation and fail: the time is up.
    TimedOut,
}

/// Decides the next step of a wait: a settled state ends it; a pending one
/// waits on until `timeout_ms` have passed.
pub fn op_wait_step(state: AsyncOpState, elapsed_ms: u64, timeout_ms: u64) -> (r: OpWaitStep)
    ensures
        state != AsyncOpState::Pending ==> r == OpWaitStep::Settled(state),
        state == AsyncOpState::Pending ==> r == (if elapsed_ms >= timeout_ms {
            OpWaitStep::TimedOut
        } else {
            OpWaitStep::WaitMore
        }),
{
    if state != AsyncOpState::Pending {
        return OpWaitStep::Settled(state);
    }
    if elapsed_ms >= timeout_ms {
        OpWaitStep::TimedOut
    } else {
        OpWaitStep::WaitMore
    }
}

/// The text a timed-out wait fails with.
pub open spec fn timeout_text(label: Seq<char>, timeout_ms: u64) -> Seq<char> {
    label + " operation timed out after "@ + dec_digits(timeout_ms as nat) + "ms"@
}

pub fn timeout_message(label: &str, timeout_ms: u64) -> (s: String)
    ensures
        s@ == timeout_text(label@, timeout_ms),
{
    let mut v = chars_of(label);
    push_str(&mut v, " operation timed out after ");
    push_decimal(&mut v, timeout_ms);
    push_str(&mut v, "ms");
    assert(v@ =~= timeout_text(label@, timeout_ms));
    string_of(&v)
}

/// What the host does with an operation in a settled state.
#[derive(Debug)]
pub enum OpOutcome {
    /// Take the operation's result.
    TakeResult,
    /// Take the operation's status, then fail with this text.
    TakeStatusThenFail(String),
    /// Fail with this text.
    Fail(String),
}

/// The outcome of an operation labelled `label` (say `lyrics search`).
pub fn op_state_outcome(label: &str, state: AsyncOpState) -> (r: OpOutcome)
    ensures
        match state {
            AsyncOpState::Ready => r is TakeResult,
            AsyncOpState::Failed => r matches OpOutcome::TakeStatusThenFail(m) && m@ == label@
                + " operation failed"@,
            AsyncOpState::Cancelled => r matches OpOutcome::Fail(m) && m@ == label@
                + " operation cancelled"@,
            AsyncOpState::Pending => r matches OpOutcome::Fail(m) && m@ == label@
                + " operation still pending"@,
        },
{
    match state {
        AsyncOpState::Ready => OpOutcome::TakeResult,
        AsyncOpState::Failed => {
            let mut v = chars_of(label);
            push_str(&mut v, " operation failed");
            OpOutcome::TakeStatusThenFail(string_of(&v))
        },
        AsyncOpState::Cancelled => {
            let mut v = chars_of(label);
            push_str(&mut v, " operation cancelled");
            OpOutcome::Fail(string_of(&v))
        },
        AsyncOpState::Pending => {
            let mut v = chars_of(label);
            push_str(&mut v, " operation still pending");
            OpOutcome::Fail(string_of(&v))
        },
    }
}

/// The plan assumed for a plugin that cannot plan a config update: recreate.
pub fn plan_without_planner() -> (p: ConfigUpdatePlan)
    ensures
        p.mode == StConfigUpdateMode::Recreate,
        p.reason matches Some(r) && r@ == "plugin does not implement plan_config_update"@,
{
    ConfigUpdatePlan {
        mode: StConfigUpdateMode::Recreate,
        reason: Some(String::from_str("plugin does not implement plan_config_update")),
    }
}

/// What the host does with an instance for a config update plan.
#[allow(inconsistent_fields)]
#[derive(Debug)]
pub enum ConfigUpdateAction {
    /// Apply the config in place.
    HotApply,
    /// Report that the instance must be recreated, with the plan's reason.
    RequiresRecreate { reason: Option<String> },
    /// Report the rejection with this reason.
    Rejected { reason: String },
}

/// Decides what a config update plan makes the host do for a capability
/// labelled `kind` (say `lyrics`): a rejection without a reason reads
/// `<kind> rejected config update`.
pub fn config_update_action(kind: &str, plan: ConfigUpdatePlan) -> (r: ConfigUpdateAction)
    ensures
        match plan.mode {
            StConfigUpdateMode::HotApply => r is HotApply,
            StConfigUpdateMode::Recreate => r matches ConfigUpdateAction::RequiresRecreate {
                reason,
            } && match (reason, plan.reason) {
                (Some(a), Some(b)) => a@ == b@,
                (None, None) => true,
                _ => false,
            },
            StConfigUpdateMode::Reject => r matches ConfigUpdateAction::Rejected { reason } && match plan.reason {
                Some(b) => reason@ == b@,
                None => reason@ == kind@ + " rejected config update"@,
            },
        },
{
    match plan.mode {
        StConfigUpdateMode::HotApply => ConfigUpdateAction::HotApply,
        StConfigUpdateMode::Recreate => ConfigUpdateAction::RequiresRecreate { reason: plan.reason },
        StConfigUpdateMode::Reject => {
            let reason = match plan.reason {
                Some(b) => b,
                None => {
                    let mut v = chars_of(kind);
                    push_str(&mut v, " rejected config update");
                    string_of(&v)
                },
            };
            ConfigUpdateAction::Rejected { reason }
        },
    }
}

/// The outcome of a config update for one open session of a capability
/// labelled `subject` (say `decoder session`) while the plugin is reloaded in
/// place: only a hot apply lets the reload go on.
pub fn session_update_outcome(subject: &str, mode: StConfigUpdateMode, reason: Option<String>) -> (r:
    Result<(), String>)
    ensures
        match mode {
            StConfigUpdateMode::HotApply => r is Ok,
            StConfigUpdateMode::Recreate => r matches Err(e) && e@ == subject@
                + " requested recreate for config update"@,
            StConfigUpdateMode::Reject => r matches Err(e) && e@ == subject@
                + " rejected config update: "@ + match reason {
                Some(s) => s@,
                None => "unknown"@,
            },
        },
{
    match mode {
        StConfigUpdateMode::HotApply => Ok(()),
        StConfigUpdateMode::Recreate => {
            let mut v = chars_of(subject);
            push_str(&mut v, " requested recreate for config update");
            Err(string_of(&v))
        },
        StConfigUpdateMode::Reject => {
            let mut v = chars_of(subject);
            push_str(&mut v, " rejected config update: ");
            match reason {
                Some(s) => push_str(&mut v, s.as_str()),
                None => push_str(&mut v, "unknown"),
            }
            Err(string_of(&v))
        },
    }
}

/// What the host learnt from the last step of a hot reload of a plugin's
/// open sessions.
#[derive(Debug)]
pub enum SessionReloadEvent {
    /// The reload begins.
    Started,
    /// The session asked for its plan answered with this mode and reason.
    Planned { mode: StConfigUpdateMode, reason: Option<String> },
    /// The session took the new config.
    Applied,
    /// A call into the plugin failed with this report.
    Failed(String),
}

/// What the host does next in a hot reload of a plugin's open sessions.
#[derive(Debug)]
pub enum SessionReloadAction {
    /// Ask the session at this place for its plan.
    PlanSession(usize),
    /// Hand the new config to the session at this place.
    ApplySession(usize),
    /// Stop: every session took the config, or the reload fails with this
    /// report (the component is then rebuilt).
    Finish(Result<(), String>),
}

/// The next step of a hot reload over `count` open sessions of a capability
/// labelled `subject`, after `event` about the session at `index`: the
/// sessions are asked in order, each that plans a hot apply is handed the
/// config, and the first that plans anything else, or the first failing
/// call, ends the reload with its report.
pub fn session_reload_step(subject: &str, count: usize, index: usize, event: SessionReloadEvent) -> (r:
    SessionReloadAction)
    requires
        (event is Planned || event is Applied) ==> index < count,
    ensures
        match event {
            SessionReloadEvent::Started => if count == 0 {
                r matches SessionReloadAction::Finish(Ok(()))
            } else {
                r matches SessionReloadAction::PlanSession(i) && i == 0
            },
            SessionReloadEvent::Failed(e) => r matches SessionReloadAction::Finish(Err(m)) && m@ == e@,
            SessionReloadEvent::Planned { mode, reason } => match mode {
                StConfigUpdateMode::HotApply => r matches SessionReloadAction::ApplySession(i) && i == index,
                StConfigUpdateMode::Recreate => r matches SessionReloadAction::Finish(Err(m)) && m@
                    == subject@ + " requested recreate for config update"@,
                StConfigUpdateMode::Reject => r matches SessionReloadAction::Finish(Err(m)) && m@
                    == subject@ + " rejected config update: "@ + match reason {
                    Some(s) => s@,
                    None => "unknown"@,
                },
            },
            SessionReloadEvent::Applied => if index + 1 < count {
                r matches SessionReloadAction::PlanSession(i) && i == index + 1
            } else {
                r matches SessionReloadAction::Finish(Ok(()))
            },
        },
{
    match event {
        SessionReloadEvent::Started => {
            if count == 0 {
                SessionReloadAction::Finish(Ok(()))
            } else {
                SessionReloadAction::PlanSession(0)
            }
        },
        SessionReloadEvent::Failed(e) => SessionReloadAction::Finish(Err(e)),
        SessionReloadEvent::Planned { mode, reason } => match session_update_outcome(subject, mode, reason) {
            Ok(()) => SessionReloadAction::ApplySession(index),
            Err(m) => SessionReloadAction::Finish(Err(m)),
        },
        SessionReloadEvent::Applied => {
            if index + 1 < count {
                SessionReloadAction::PlanSession(index + 1)
            } else {
                SessionReloadAction::Finish(Ok(()))
            }
        },
    }
}

/// The handle after `handle`: one more, saturating, and never 0.
pub open spec fn session_next(handle: u64) -> u64 {
    if handle == u64::MAX {
        u64::MAX
    } else {
        (handle + 1) as u64
    }
}

/// Numbers the sessions (or processors) a plugin opens: from 1 on, never 0.
#[derive(Debug)]
pub struct SessionHandles {
    next: u64,
}

impl SessionHandles {
    pub closed spec fn next_spec(&self) -> u64 {
        self.next
    }

    pub fn new() -> (h: SessionHandles)
        ensures
            h.next_spec() == 1,
    {
        SessionHandles { next: 1 }
    }

    /// The next handle: the stored one (1 where it is 0).
    pub fn next_handle(&mut self) -> (handle: u64)
        ensures
            handle == (if old(self).next_spec() == 0 {
                1
            } else {
                old(self).next_spec()
            }),
            handle != 0,
            final(self).next_spec() == session_next(handle),
            final(self).next_spec() != 0,
    {
        let handle = if self.next == 0 {
            1
        } else {
            self.next
        };
        self.next = handle.saturating_add(1);
        if self.next == 0 {
            self.next = 1;
        }
        handle
    }
}

/// Below the top of `u64`, handles handed out one after another differ.
pub proof fn law_session_handles_differ(first: u64)
    requires
        1 <= first < u64::MAX,
    ensures
        session_next(first) != first,
        session_next(first) == first + 1,
{
}

/// The text a lookup of a missing session fails with: `<label> `<h>` not found`.
pub open spec fn session_missing_text(label: Seq<char>, handle: u64) -> Seq<char> {
    label + " `"@ + dec_digits(handle as nat) + "` not found"@
}

/// The live sessions of a plugin instance, each under the handle it was
/// given; `R` is the component runtime's reference to a session.
#[derive(Debug)]
pub struct SessionTable<R> {
    handles: SessionHandles,
    sessions: BTreeMap<u64, R>,
}

impl<R> SessionTable<R> {
    /// The session under each handle.
    pub closed spec fn map(&self) -> Map<u64, R> {
        self.sessions@
    }

    /// The handle the next session gets (before the zero skip).
    pub closed spec fn next_spec(&self) -> u64 {
        self.handles.next_spec()
    }

    pub fn new() -> (t: SessionTable<R>)
        ensures
            t.map() == Map::<u64, R>::empty(),
            t.next_spec() == 1,
    {
        SessionTable { handles: SessionHandles::new(), sessions: BTreeMap::new() }
    }

    /// Takes the session under `handle` out, where there is one.
    pub fn close(&mut self, handle: u64) -> (r: Option<R>)
        ensures
            final(self).map() == old(self).map().remove(handle),
            final(self).next_spec() == old(self).next_spec(),
            match r {
                Some(s) => old(self).map().contains_key(handle) && old(self).map()[handle] == s,
                None => !old(self).map().contains_key(handle),
            },
    {
        self.sessions.remove(&handle)
    }

    /// Keeps `session` under a fresh handle (the next one), replacing what was
    /// under that handle; returns the handle.
    pub fn open(&mut self, session: R) -> (handle: u64)
        ensures
            handle == (if old(self).next_spec() == 0 {
                1
            } else {
                old(self).next_spec()
            }),
            handle != 0,
            final(self).next_spec() == session_next(handle),
            final(self).map() == old(self).map().insert(handle, session),
    {
        let handle = self.handles.next_handle();
        let _ = self.sessions.insert(handle, session);
        handle
    }

    /// The session under `handle`, or the error `<label> `<handle>` not found`.
    pub fn get(&self, handle: u64, label: &str) -> (r: Result<&R, String>)
        ensures
            self.map().contains_key(handle) ==> (r matches Ok(s) && *s == self.map()[handle]),
            !self.map().contains_key(handle) ==> (r matches Err(e) && e@ == session_missing_text(label@, handle)),
    {
        match self.sessions.get(&handle) {
            Some(s) => Ok(s),
            None => {
                let mut v = chars_of(label);
                push_str(&mut v, " `");
                push_decimal(&mut v, handle);
                push_str(&mut v, "` not found");
                assert(v@ =~= session_missing_text(label@, handle));
                Err(string_of(&v))
            },
        }
    }

    /// After a reload: the sessions are forgotten where the component was
    /// rebuilt or destroyed (they died with it), and kept where every one of
    /// them took the new config in place.
    pub fn after_reload(&mut self, rebuilt: bool, destroyed: bool)
        ensures
            final(self).map() == (if rebuilt || destroyed {
                Map::<u64, R>::empty()
            } else {
                old(self).map()
            }),
            final(self).next_spec() == old(self).next_spec(),
    {
        if rebuilt || destroyed {
            let _ = self.take_all();
        }
    }

    /// Forgets every session (after the instance was rebuilt or destroyed),
    /// handing them back.
    pub fn take_all(&mut self) -> (r: BTreeMap<u64, R>)
        ensures
            final(self).map() == Map::<u64, R>::empty(),
            final(self).next_spec() == old(self).next_spec(),
            r@ == old(self).map(),
    {
        let mut out: BTreeMap<u64, R> = BTreeMap::new();
        std::mem::swap(&mut out, &mut self.sessions);
        out
    }
}

/// A session opened and then looked up is found, until it is closed.
pub proof fn law_open_then_get<R>(m: Map<u64, R>, handle: u64, session: R, other: u64)
    requires
        other != handle,
    ensures
        m.insert(handle, session).contains_key(handle),
        m.insert(handle, session)[handle] == session,
        !m.insert(handle, session).remove(handle).contains_key(handle),
        m.contains_key(other) ==> m.insert(handle, session)[other] == m[other],
{
}

} // verus!
