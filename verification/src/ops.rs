//! The operation engine: the five commands and their execution against the
//! layered store.
//!
//! Every operation first sweeps expired keys, then runs its command, and on
//! success lets the scheduler stage a persistence batch and republish its
//! target. The caller supplies the clock and the decoded on-disk record for
//! the operation's key, and — when a command needs floating-point
//! arithmetic — evaluates the [`FloatRequest`] the engine hands back.

use vstd::prelude::*;

use crate::keys::{full_key, spec_full_key};
use crate::kvmap::KvMap;
use crate::state::{spec_expiry_update, KeyValueState};
use crate::time::Timestamp;
use crate::value::{
    decrement, increment, resolve_numeric, spec_answer_matches, spec_combine_numeric,
    spec_resolved_numeric, Entry, EntryView, FloatAnswer, FloatRequest, KvError, Numeric,
    NumericOutcome, Value, ValueView,
};

verus! {

impl Entry {
    /// The operation that writes this record back under the given namespace
    /// and key: an unconditional set carrying the record's value and stored
    /// expiration.
    pub fn restore(self, namespace: Option<String>, key: String) -> (r: KeyOperation)
        ensures
            r.namespace == namespace,
            r.key == key,
            r.command matches Command::SetValue(set) && set.value@ == self.value@
                && set.expiration == self.expiration && !set.keep_existing_expiration && set.check
                is None && !set.return_previous_value,
    {
        KeyOperation {
            namespace,
            key,
            command: Command::SetValue(
                SetCommand {
                    value: self.value,
                    expiration: self.expiration,
                    keep_existing_expiration: false,
                    check: None,
                    return_previous_value: false,
                },
            ),
        }
    }
}

/// A condition a set command may put on the key's prior state.
#[derive(Clone, Copy, Debug, PartialEq, Eq, Structural)]
pub enum KeyCheck {
    OnlyIfPresent,
    OnlyIfVacant,
}

/// How a completed command reports a status.
#[derive(Clone, Copy, Debug, PartialEq, Eq, Structural)]
pub enum KeyStatus {
    Inserted,
    Updated,
    Deleted,
    NotChanged,
}

/// A set command: the value to store and how to treat the prior record.
#[derive(Clone, Debug)]
pub struct SetCommand {
    pub value: Value,
    pub expiration: Option<Timestamp>,
    pub keep_existing_expiration: bool,
    pub check: Option<KeyCheck>,
    pub return_previous_value: bool,
}

/// One of the five commands.
#[derive(Clone, Debug)]
pub enum Command {
    SetValue(SetCommand),
    Get { delete: bool },
    Delete,
    Increment { amount: Numeric, saturating: bool },
    Decrement { amount: Numeric, saturating: bool },
}

/// An operation: a namespace, a key, and a command.
#[derive(Clone, Debug)]
pub struct KeyOperation {
    pub namespace: Option<String>,
    pub key: String,
    pub command: Command,
}

/// What a command returns.
#[derive(Clone, Debug, PartialEq)]
pub enum Output {
    Status(KeyStatus),
    Value(Option<Value>),
}

/// The mathematical content of an [`Output`].
pub enum OutputView {
    Status(KeyStatus),
    Value(Option<ValueView>),
}

impl View for Output {
    type V = OutputView;

    open spec fn view(&self) -> OutputView {
        match self {
            Output::Status(s) => OutputView::Status(*s),
            Output::Value(v) => OutputView::Value(
                match v {
                    Some(value) => Some(value@),
                    None => None,
                },
            ),
        }
    }
}

/// The view of a command's result.
pub open spec fn spec_result_view(r: Result<Output, KvError>) -> Result<OutputView, KvError> {
    match r {
        Ok(out) => Ok(out@),
        Err(e) => Err(e),
    }
}

/// True when the prior state of the key satisfies the check.
pub open spec fn spec_check_passes(check: Option<KeyCheck>, existing: Option<EntryView>) -> bool {
    match check {
        Some(KeyCheck::OnlyIfPresent) => existing is Some,
        Some(KeyCheck::OnlyIfVacant) => existing is None,
        None => true,
    }
}

/// The expiration the new record carries: the prior record's, when asked to
/// keep it and one exists; the command's otherwise.
pub open spec fn spec_set_expiration(
    keep_existing_expiration: bool,
    commanded: Option<Timestamp>,
    existing: Option<EntryView>,
) -> Option<Timestamp> {
    if keep_existing_expiration {
        match existing {
            Some(e) => e.expiration,
            None => commanded,
        }
    } else {
        commanded
    }
}

/// What a successful set reports: the prior value when asked for it, else
/// whether the key was fresh.
pub open spec fn spec_set_output(
    return_previous_value: bool,
    existing: Option<EntryView>,
) -> OutputView {
    if return_previous_value {
        OutputView::Value(
            match existing {
                Some(e) => Some(e.value),
                None => None,
            },
        )
    } else if existing is None {
        OutputView::Status(KeyStatus::Inserted)
    } else {
        OutputView::Status(KeyStatus::Updated)
    }
}

/// Everything a write leaves alone: the policy, the staging bookkeeping, and
/// the in-flight batch.
pub open spec fn spec_write_frame(pre: KeyValueState, post: KeyValueState) -> bool {
    &&& post.persistence == pre.persistence
    &&& post.last_commit == pre.last_commit
    &&& post.keys_being_persisted == pre.keys_being_persisted
    &&& post.last_persistence == pre.last_persistence
    &&& post.shutdown_requested == pre.shutdown_requested
}

/// How one set command takes the store from `pre` to `post` and yields
/// `result`, with `disk` the decoded on-disk record for the flat key.
pub open spec fn spec_set_effect(
    pre: KeyValueState,
    post: KeyValueState,
    ns: Option<Seq<char>>,
    key: Seq<char>,
    set: SetCommand,
    now: Timestamp,
    disk: Option<EntryView>,
    result: Result<OutputView, KvError>,
) -> bool {
    let fk = spec_full_key(ns, key);
    let existing = pre.spec_visible(disk, fk);
    if !set.value.spec_is_valid() {
        &&& result == Err::<OutputView, KvError>(KvError::InvalidValue)
        &&& post == pre
    } else if !spec_check_passes(set.check, existing) {
        &&& result == Ok::<OutputView, KvError>(OutputView::Status(KeyStatus::NotChanged))
        &&& post == pre
    } else {
        let exp = spec_set_expiration(set.keep_existing_expiration, set.expiration, existing);
        let new_entry = EntryView { value: set.value@, expiration: exp, last_updated: now };
        &&& result == Ok::<OutputView, KvError>(spec_set_output(set.return_previous_value, existing))
        &&& post.dirty_keys@ == pre.dirty_keys@.insert(fk, Some(new_entry))
        &&& exists|republished: bool|
            {
                &&& #[trigger] spec_expiry_update(
                    pre.spec_expirations(),
                    post.spec_expirations(),
                    fk,
                    exp,
                    republished,
                )
                &&& if republished {
                    post.background_worker_target == crate::state::spec_computed_target(
                        pre.persistence@,
                        pre.keys_being_persisted is Some,
                        pre.dirty_keys.spec_len() as usize,
                        pre.last_commit,
                        crate::state::spec_head_expiration(post.spec_expirations()),
                        now,
                    )
                } else {
                    post.background_worker_target == pre.background_worker_target
                }
            }
        &&& spec_write_frame(pre, post)
    }
}

/// How one get command (with or without its delete flag) takes the store
/// from `pre` to `post` and yields `result`.
pub open spec fn spec_get_effect(
    pre: KeyValueState,
    post: KeyValueState,
    ns: Option<Seq<char>>,
    key: Seq<char>,
    delete: bool,
    now: Timestamp,
    disk: Option<EntryView>,
    result: Result<OutputView, KvError>,
) -> bool {
    let fk = spec_full_key(ns, key);
    let existing = pre.spec_visible(disk, fk);
    &&& result == Ok::<OutputView, KvError>(
        OutputView::Value(
            match existing {
                Some(e) => Some(e.value),
                None => None,
            },
        ),
    )
    &&& if delete {
        spec_delete_state_effect(pre, post, fk, now)
    } else {
        post == pre
    }
}

/// How deleting a flat key changes the store: a pending deletion shadows it
/// and it leaves the expiration queue.
pub open spec fn spec_delete_state_effect(
    pre: KeyValueState,
    post: KeyValueState,
    fk: Seq<char>,
    now: Timestamp,
) -> bool {
    &&& post.dirty_keys@ == pre.dirty_keys@.insert(fk, None)
    &&& exists|republished: bool|
        {
            &&& #[trigger] crate::state::spec_expiry_clear(
                pre.spec_expirations(),
                post.spec_expirations(),
                fk,
                republished,
            )
            &&& if republished {
                post.background_worker_target == crate::state::spec_computed_target(
                    pre.persistence@,
                    pre.keys_being_persisted is Some,
                    pre.dirty_keys.spec_len() as usize,
                    pre.last_commit,
                    crate::state::spec_head_expiration(post.spec_expirations()),
                    now,
                )
            } else {
                post.background_worker_target == pre.background_worker_target
            }
        }
    &&& spec_write_frame(pre, post)
}

/// How one delete command takes the store from `pre` to `post`.
pub open spec fn spec_delete_effect(
    pre: KeyValueState,
    post: KeyValueState,
    ns: Option<Seq<char>>,
    key: Seq<char>,
    now: Timestamp,
    disk: Option<EntryView>,
    result: Result<OutputView, KvError>,
) -> bool {
    let fk = spec_full_key(ns, key);
    let existing = pre.spec_visible(disk, fk);
    &&& result == Ok::<OutputView, KvError>(
        if existing is Some {
            OutputView::Status(KeyStatus::Deleted)
        } else {
            OutputView::Status(KeyStatus::NotChanged)
        },
    )
    &&& spec_delete_state_effect(pre, post, fk, now)
}

/// The record a numeric command works on: the visible one, or a fresh zero.
pub open spec fn spec_numeric_base(existing: Option<EntryView>, now: Timestamp) -> EntryView {
    match existing {
        Some(e) => e,
        None => EntryView {
            value: ValueView::Numeric(Numeric::UnsignedInteger(0)),
            expiration: None,
            last_updated: now,
        },
    }
}

/// How one increment or decrement, once every needed value is an integer,
/// takes the store from `pre` to `post` and yields `result`. The new record
/// keeps the base record's expiration and carries the operation's instant as
/// its update stamp; the expiration queue and the scheduler target are
/// untouched.
pub open spec fn spec_numeric_resolved_effect(
    pre: KeyValueState,
    post: KeyValueState,
    fk: Seq<char>,
    base: EntryView,
    resolved: Numeric,
    now: Timestamp,
    result: Result<OutputView, KvError>,
) -> bool {
    if !resolved.spec_is_valid() {
        &&& result == Err::<OutputView, KvError>(KvError::InvalidValue)
        &&& post == pre
    } else {
        let new_entry = EntryView {
            value: ValueView::Numeric(resolved),
            expiration: base.expiration,
            last_updated: now,
        };
        &&& result == Ok::<OutputView, KvError>(
            OutputView::Value(Some(ValueView::Numeric(resolved))),
        )
        &&& post.dirty_keys@ == pre.dirty_keys@.insert(fk, Some(new_entry))
        &&& post.expirations@ == pre.expirations@
        &&& post.background_worker_target == pre.background_worker_target
        &&& spec_write_frame(pre, post)
    }
}

/// What a numeric command does: an error on a bytes value, a finished write
/// when no floating-point step is needed, and otherwise the request the
/// caller must answer.
pub open spec fn spec_numeric_effect(
    pre: KeyValueState,
    post: KeyValueState,
    ns: Option<Seq<char>>,
    key: Seq<char>,
    amount: Numeric,
    saturating: bool,
    subtract: bool,
    now: Timestamp,
    disk: Option<EntryView>,
    outcome: NumericOperationResult,
) -> bool {
    let fk = spec_full_key(ns, key);
    let existing = pre.spec_visible(disk, fk);
    let base = spec_numeric_base(existing, now);
    match base.value {
        ValueView::Bytes(_) => {
            &&& outcome matches NumericOperationResult::Done(result) && spec_result_view(result)
                == Err::<OutputView, KvError>(KvError::NotNumeric)
            &&& post == pre
        },
        ValueView::Numeric(existing_n) => {
            match spec_combine_numeric(existing_n, amount, saturating, subtract) {
                NumericOutcome::Resolved(resolved) => {
                    &&& outcome matches NumericOperationResult::Done(result)
                        && spec_numeric_resolved_effect(
                        pre,
                        post,
                        fk,
                        base,
                        resolved,
                        now,
                        spec_result_view(result),
                    )
                },
                NumericOutcome::NeedsFloat(req) => {
                    &&& outcome matches NumericOperationResult::NeedsFloat(r) && r == req
                    &&& post == pre
                },
            }
        },
    }
}

/// How completing a numeric command with an answered floating-point step
/// takes the store from `pre` to `post`.
pub open spec fn spec_numeric_complete_effect(
    pre: KeyValueState,
    post: KeyValueState,
    ns: Option<Seq<char>>,
    key: Seq<char>,
    amount: Numeric,
    saturating: bool,
    subtract: bool,
    answer: FloatAnswer,
    now: Timestamp,
    disk: Option<EntryView>,
    result: Result<OutputView, KvError>,
) -> bool {
    let fk = spec_full_key(ns, key);
    let existing = pre.spec_visible(disk, fk);
    let base = spec_numeric_base(existing, now);
    match base.value {
        ValueView::Bytes(_) => {
            &&& result == Err::<OutputView, KvError>(KvError::NotNumeric)
            &&& post == pre
        },
        ValueView::Numeric(_) => spec_numeric_resolved_effect(
            pre,
            post,
            fk,
            base,
            spec_resolved_numeric(amount, saturating, subtract, answer),
            now,
            result,
        ),
    }
}

/// A numeric command's immediate outcome: finished, or waiting on a
/// floating-point step.
pub enum NumericOperationResult {
    Done(Result<Output, KvError>),
    NeedsFloat(FloatRequest),
}

/// An operation's outcome: its result together with a batch the caller must
/// hand to a persistence worker when the scheduler staged one; or the
/// floating-point step the caller must answer.
pub enum PerformOutcome {
    Done(Result<Output, KvError>, Option<KvMap<Option<Entry>>>),
    NeedsFloat(FloatRequest),
}

/// How one command takes the store from `pre` to `post` and yields `result`.
pub open spec fn spec_command_effect(
    pre: KeyValueState,
    post: KeyValueState,
    op: KeyOperation,
    now: Timestamp,
    disk: Option<EntryView>,
    result: Result<Output, KvError>,
) -> bool {
    let ns = match op.namespace {
        Some(s) => Some(s@),
        None => None,
    };
    match op.command {
        Command::SetValue(set) => spec_set_effect(
            pre,
            post,
            ns,
            op.key@,
            set,
            now,
            disk,
            spec_result_view(result),
        ),
        Command::Get { delete } => spec_get_effect(
            pre,
            post,
            ns,
            op.key@,
            delete,
            now,
            disk,
            spec_result_view(result),
        ),
        Command::Delete => spec_delete_effect(
            pre,
            post,
            ns,
            op.key@,
            now,
            disk,
            spec_result_view(result),
        ),
        Command::Increment { amount, saturating } => spec_numeric_effect(
            pre,
            post,
            ns,
            op.key@,
            amount,
            saturating,
            false,
            now,
            disk,
            NumericOperationResult::Done(result),
        ),
        Command::Decrement { amount, saturating } => spec_numeric_effect(
            pre,
            post,
            ns,
            op.key@,
            amount,
            saturating,
            true,
            now,
            disk,
            NumericOperationResult::Done(result),
        ),
    }
}

/// What follows a finished command: on success the scheduler stages a batch
/// when the policy asks for one and republishes its target; on an error the
/// store is left as the command left it.
pub open spec fn spec_operation_tail(
    pre: KeyValueState,
    post: KeyValueState,
    ok: bool,
    staged: Option<KvMap<Option<Entry>>>,
    now: Timestamp,
) -> bool {
    if ok {
        let staging = pre.spec_needs_commit(now) && pre.dirty_keys.spec_len() > 0;
        &&& if staging {
            &&& match staged {
                Some(b) => {
                    &&& b@ == pre.dirty_keys@
                    &&& b.wf()
                    &&& b.spec_keys() == pre.dirty_keys.spec_keys()
                    &&& b.spec_values() == pre.dirty_keys.spec_values()
                },
                None => false,
            }
            &&& match post.keys_being_persisted {
                Some(m) => m@ == pre.dirty_keys@ && m.wf(),
                None => false,
            }
            &&& post.dirty_keys@ == Map::<Seq<char>, Option<EntryView>>::empty()
            &&& post.dirty_keys.spec_len() == 0
            &&& post.last_commit == now
        } else {
            &&& staged is None
            &&& post.dirty_keys == pre.dirty_keys
            &&& post.keys_being_persisted == pre.keys_being_persisted
            &&& post.last_commit == pre.last_commit
        }
        &&& post.expirations@ == pre.expirations@
        &&& post.persistence == pre.persistence
        &&& post.last_persistence == pre.last_persistence
        &&& post.shutdown_requested == pre.shutdown_requested
        &&& post.background_worker_target == post.spec_state_target(now)
    } else {
        &&& post == pre
        &&& staged is None
    }
}

/// How resuming a numeric command with an answered floating-point step takes
/// the store from `pre` to `post`: the completed write, then the staging and
/// republishing step of a finished operation.
pub open spec fn spec_resume_effect(
    pre: KeyValueState,
    post: KeyValueState,
    ns: Option<Seq<char>>,
    key: Seq<char>,
    amount: Numeric,
    saturating: bool,
    subtract: bool,
    answer: FloatAnswer,
    now: Timestamp,
    disk: Option<EntryView>,
    result: Result<Output, KvError>,
    staged: Option<KvMap<Option<Entry>>>,
) -> bool {
    exists|mid: KeyValueState|
        {
            &&& spec_numeric_complete_effect(
                pre,
                mid,
                ns,
                key,
                amount,
                saturating,
                subtract,
                answer,
                now,
                disk,
                spec_result_view(result),
            )
            &&& mid.wf()
            &&& #[trigger] spec_operation_tail(mid, post, result is Ok, staged, now)
        }
}

impl KeyValueState {
    /// Runs a set command against the store.
    pub fn execute_set_operation(
        &mut self,
        namespace: Option<&str>,
        key: &str,
        set: SetCommand,
        now: Timestamp,
        disk_entry: Option<Entry>,
    ) -> (r: Result<Output, KvError>)
        requires
            old(self).wf(),
        ensures
            final(self).wf(),
            spec_set_effect(
                *old(self),
                *final(self),
                match namespace {
                    Some(ns) => Some(ns@),
                    None => None,
                },
                key@,
                set,
                now,
                disk_entry.deep_view(),
                spec_result_view(r),
            ),
    {
        let SetCommand { value, expiration, keep_existing_expiration, check, return_previous_value } =
            set;
        let value = match value.validate() {
            Ok(v) => v,
            Err(e) => {
                return Err(e);
            },
        };
        let fk = full_key(namespace, key);
        let existing = self.get(&fk, disk_entry);
        let updating = match &check {
            Some(KeyCheck::OnlyIfPresent) => existing.is_some(),
            Some(KeyCheck::OnlyIfVacant) => existing.is_none(),
            None => true,
        };
        if updating {
            let exp = if keep_existing_expiration {
                match &existing {
                    Some(e) => e.expiration,
                    None => expiration,
                }
            } else {
                expiration
            };
            self.update_key_expiration(fk.clone(), exp, now);
            let entry = Entry { value, expiration: exp, last_updated: now };
            self.set(fk, entry);
            if return_previous_value {
                Ok(Output::Value(
                    match existing {
                        Some(e) => Some(e.value),
                        None => None,
                    },
                ))
            } else if existing.is_none() {
                Ok(Output::Status(KeyStatus::Inserted))
            } else {
                Ok(Output::Status(KeyStatus::Updated))
            }
        } else {
            Ok(Output::Status(KeyStatus::NotChanged))
        }
    }

    /// Runs a get command: reports the visible value, and removes the key
    /// when asked to.
    pub fn execute_get_operation(
        &mut self,
        namespace: Option<&str>,
        key: &str,
        delete: bool,
        now: Timestamp,
        disk_entry: Option<Entry>,
    ) -> (r: Result<Output, KvError>)
        requires
            old(self).wf(),
        ensures
            final(self).wf(),
            spec_get_effect(
                *old(self),
                *final(self),
                match namespace {
                    Some(ns) => Some(ns@),
                    None => None,
                },
                key@,
                delete,
                now,
                disk_entry.deep_view(),
                spec_result_view(r),
            ),
    {
        let fk = full_key(namespace, key);
        let entry = if delete {
            self.remove(fk, disk_entry, now)
        } else {
            self.get(&fk, disk_entry)
        };
        Ok(Output::Value(
            match entry {
                Some(e) => Some(e.value),
                None => None,
            },
        ))
    }

    /// Runs a delete command: removes the key and reports whether a value
    /// was visible.
    pub fn execute_delete_operation(
        &mut self,
        namespace: Option<&str>,
        key: &str,
        now: Timestamp,
        disk_entry: Option<Entry>,
    ) -> (r: Result<Output, KvError>)
        requires
            old(self).wf(),
        ensures
            final(self).wf(),
            spec_delete_effect(
                *old(self),
                *final(self),
                match namespace {
                    Some(ns) => Some(ns@),
                    None => None,
                },
                key@,
                now,
                disk_entry.deep_view(),
                spec_result_view(r),
            ),
    {
        let fk = full_key(namespace, key);
        let value = self.remove(fk, disk_entry, now);
        if value.is_some() {
            Ok(Output::Status(KeyStatus::Deleted))
        } else {
            Ok(Output::Status(KeyStatus::NotChanged))
        }
    }

    /// Runs an increment or decrement: combines the visible numeric (or a
    /// fresh zero) with `amount`, or reports the floating-point step it
    /// needs.
    pub fn execute_numeric_operation(
        &mut self,
        namespace: Option<&str>,
        key: &str,
        amount: &Numeric,
        saturating: bool,
        subtract: bool,
        now: Timestamp,
        disk_entry: Option<Entry>,
    ) -> (r: NumericOperationResult)
        requires
            old(self).wf(),
        ensures
            final(self).wf(),
            spec_numeric_effect(
                *old(self),
                *final(self),
                match namespace {
                    Some(ns) => Some(ns@),
                    None => None,
                },
                key@,
                *amount,
                saturating,
                subtract,
                now,
                disk_entry.deep_view(),
                r,
            ),
    {
        let fk = full_key(namespace, key);
        let current = self.get(&fk, disk_entry);
        let entry = match current {
            Some(e) => e,
            None => Entry {
                value: Value::Numeric(Numeric::UnsignedInteger(0)),
                expiration: None,
                last_updated: now,
            },
        };
        match &entry.value {
            Value::Numeric(existing_n) => {
                let combined = if subtract {
                    decrement(existing_n, amount, saturating)
                } else {
                    increment(existing_n, amount, saturating)
                };
                match combined {
                    NumericOutcome::Resolved(resolved) => {
                        match resolved.validate() {
                            Ok(_) => {
                                let new_entry = Entry {
                                    value: Value::Numeric(resolved),
                                    expiration: entry.expiration,
                                    last_updated: now,
                                };
                                self.set(fk, new_entry);
                                NumericOperationResult::Done(
                                    Ok(Output::Value(Some(Value::Numeric(resolved)))),
                                )
                            },
                            Err(e) => NumericOperationResult::Done(Err(e)),
                        }
                    },
                    NumericOutcome::NeedsFloat(req) => NumericOperationResult::NeedsFloat(req),
                }
            },
            Value::Bytes(_) => NumericOperationResult::Done(Err(KvError::NotNumeric)),
        }
    }

    /// Runs an increment command.
    pub fn execute_increment_operation(
        &mut self,
        namespace: Option<&str>,
        key: &str,
        amount: &Numeric,
        saturating: bool,
        now: Timestamp,
        disk_entry: Option<Entry>,
    ) -> (r: NumericOperationResult)
        requires
            old(self).wf(),
        ensures
            final(self).wf(),
            spec_numeric_effect(
                *old(self),
                *final(self),
                match namespace {
                    Some(ns) => Some(ns@),
                    None => None,
                },
                key@,
                *amount,
                saturating,
                false,
                now,
                disk_entry.deep_view(),
                r,
            ),
    {
        self.execute_numeric_operation(namespace, key, amount, saturating, false, now, disk_entry)
    }

    /// Runs a decrement command.
    pub fn execute_decrement_operation(
        &mut self,
        namespace: Option<&str>,
        key: &str,
        amount: &Numeric,
        saturating: bool,
        now: Timestamp,
        disk_entry: Option<Entry>,
    ) -> (r: NumericOperationResult)
        requires
            old(self).wf(),
        ensures
            final(self).wf(),
            spec_numeric_effect(
                *old(self),
                *final(self),
                match namespace {
                    Some(ns) => Some(ns@),
                    None => None,
                },
                key@,
                *amount,
                saturating,
                true,
                now,
                disk_entry.deep_view(),
                r,
            ),
    {
        self.execute_numeric_operation(namespace, key, amount, saturating, true, now, disk_entry)
    }

    /// Finishes a numeric command whose floating-point step the caller has
    /// answered: the answer stands in for the cast or the arithmetic, and the
    /// write proceeds as if it had been computed in place.
    pub fn complete_numeric_operation(
        &mut self,
        namespace: Option<&str>,
        key: &str,
        amount: &Numeric,
        saturating: bool,
        subtract: bool,
        answer: FloatAnswer,
        now: Timestamp,
        disk_entry: Option<Entry>,
    ) -> (r: Result<Output, KvError>)
        requires
            old(self).wf(),
            spec_answer_matches(*amount, answer),
        ensures
            final(self).wf(),
            spec_numeric_complete_effect(
                *old(self),
                *final(self),
                match namespace {
                    Some(ns) => Some(ns@),
                    None => None,
                },
                key@,
                *amount,
                saturating,
                subtract,
                answer,
                now,
                disk_entry.deep_view(),
                spec_result_view(r),
            ),
    {
        let fk = full_key(namespace, key);
        let current = self.get(&fk, disk_entry);
        let entry = match current {
            Some(e) => e,
            None => Entry {
                value: Value::Numeric(Numeric::UnsignedInteger(0)),
                expiration: None,
                last_updated: now,
            },
        };
        match &entry.value {
            Value::Numeric(_) => {
                let resolved = resolve_numeric(amount, saturating, subtract, answer);
                match resolved.validate() {
                    Ok(_) => {
                        let new_entry = Entry {
                            value: Value::Numeric(resolved),
                            expiration: entry.expiration,
                            last_updated: now,
                        };
                        self.set(fk, new_entry);
                        Ok(Output::Value(Some(Value::Numeric(resolved))))
                    },
                    Err(e) => Err(e),
                }
            },
            Value::Bytes(_) => Err(KvError::NotNumeric),
        }
    }

    /// The step after a successful command: stage a batch when the policy
    /// asks for one, then republish the scheduler target.
    fn finish_operation(&mut self, ok: bool, now: Timestamp) -> (staged: Option<
        KvMap<Option<Entry>>,
    >)
        requires
            old(self).wf(),
        ensures
            final(self).wf(),
            spec_operation_tail(*old(self), *final(self), ok, staged, now),
    {
        if ok {
            let mut staged: Option<KvMap<Option<Entry>>> = None;
            if self.needs_commit(now) {
                staged = self.commit_dirty_keys(now);
            }
            self.update_background_worker_target(now);
            staged
        } else {
            None
        }
    }

    /// How one performed operation takes the store from `pre` to `post` and
    /// yields `r`: expired keys are swept, then the command runs — or a
    /// floating-point step is reported with only the sweep done — and on
    /// success the scheduler may stage a batch and republishes its target.
    pub open spec fn spec_perform_transition(
        pre: KeyValueState,
        post: KeyValueState,
        op: KeyOperation,
        now: Timestamp,
        disk: Option<EntryView>,
        r: PerformOutcome,
    ) -> bool {
        exists|mid: KeyValueState|
            {
                &&& #[trigger] crate::state::spec_expiry_sweep(pre, mid, now)
                &&& mid.wf()
                &&& match r {
                    PerformOutcome::NeedsFloat(req) => {
                        match op.command {
                            Command::Increment { amount, saturating } => spec_numeric_effect(
                                mid,
                                post,
                                match op.namespace {
                                    Some(s) => Some(s@),
                                    None => None,
                                },
                                op.key@,
                                amount,
                                saturating,
                                false,
                                now,
                                disk,
                                NumericOperationResult::NeedsFloat(req),
                            ),
                            Command::Decrement { amount, saturating } => spec_numeric_effect(
                                mid,
                                post,
                                match op.namespace {
                                    Some(s) => Some(s@),
                                    None => None,
                                },
                                op.key@,
                                amount,
                                saturating,
                                true,
                                now,
                                disk,
                                NumericOperationResult::NeedsFloat(req),
                            ),
                            _ => false,
                        }
                    },
                    PerformOutcome::Done(result, staged) => exists|mid2: KeyValueState|
                        {
                            &&& #[trigger] spec_command_effect(mid, mid2, op, now, disk, result)
                            &&& mid2.wf()
                            &&& spec_operation_tail(mid2, post, result is Ok, staged, now)
                        },
                }
            }
    }

    /// Performs one operation: sweeps expired keys, runs the command, and on
    /// success lets the scheduler stage and republish. Yields the result and
    /// any staged batch, or the floating-point step still needed — in which
    /// case the store has only been swept.
    pub fn perform_kv_operation(
        &mut self,
        op: KeyOperation,
        now: Timestamp,
        disk_entry: Option<Entry>,
    ) -> (r: PerformOutcome)
        requires
            old(self).wf(),
        ensures
            final(self).wf(),
            Self::spec_perform_transition(
                *old(self),
                *final(self),
                op,
                now,
                disk_entry.deep_view(),
                r,
            ),
    {
        self.remove_expired_keys(now);
        let ghost mid = *self;
        let ghost op0 = op;
        let ghost disk0 = disk_entry.deep_view();
        let KeyOperation { namespace, key, command } = op;
        let ns = match &namespace {
            Some(s) => Some(s.as_str()),
            None => None,
        };
        let ghost ns0: Option<Seq<char>> = match op0.namespace {
            Some(s) => Some(s@),
            None => None,
        };
        proof {
            assert(match ns {
                Some(n) => Some(n@),
                None => None::<Seq<char>>,
            } == ns0);
            assert(key@ == op0.key@);
        }
        let result: Result<Output, KvError> = match command {
            Command::SetValue(set) => {
                let res = self.execute_set_operation(ns, key.as_str(), set, now, disk_entry);
                proof {
                    assert(spec_set_effect(
                        mid,
                        *self,
                        ns0,
                        op0.key@,
                        set,
                        now,
                        disk0,
                        spec_result_view(res),
                    ));
                    assert(spec_command_effect(mid, *self, op0, now, disk0, res));
                }
                res
            },
            Command::Get { delete } => {
                let res = self.execute_get_operation(ns, key.as_str(), delete, now, disk_entry);
                proof {
                    assert(spec_command_effect(mid, *self, op0, now, disk0, res));
                }
                res
            },
            Command::Delete => {
                let res = self.execute_delete_operation(ns, key.as_str(), now, disk_entry);
                proof {
                    assert(spec_command_effect(mid, *self, op0, now, disk0, res));
                }
                res
            },
            Command::Increment { amount, saturating } => {
                match self.execute_increment_operation(
                    ns,
                    key.as_str(),
                    &amount,
                    saturating,
                    now,
                    disk_entry,
                ) {
                    NumericOperationResult::Done(res) => {
                        proof {
                            assert(spec_numeric_effect(
                                mid,
                                *self,
                                ns0,
                                op0.key@,
                                amount,
                                saturating,
                                false,
                                now,
                                disk0,
                                NumericOperationResult::Done(res),
                            ));
                            assert(spec_command_effect(mid, *self, op0, now, disk0, res));
                        }
                        res
                    },
                    NumericOperationResult::NeedsFloat(req) => {
                        proof {
                            assert(Self::spec_perform_transition(
                                *old(self),
                                *self,
                                op0,
                                now,
                                disk0,
                                PerformOutcome::NeedsFloat(req),
                            ));
                        }
                        return PerformOutcome::NeedsFloat(req);
                    },
                }
            },
            Command::Decrement { amount, saturating } => {
                match self.execute_decrement_operation(
                    ns,
                    key.as_str(),
                    &amount,
                    saturating,
                    now,
                    disk_entry,
                ) {
                    NumericOperationResult::Done(res) => {
                        proof {
                            assert(spec_numeric_effect(
                                mid,
                                *self,
                                ns0,
                                op0.key@,
                                amount,
                                saturating,
                                true,
                                now,
                                disk0,
                                NumericOperationResult::Done(res),
                            ));
                            assert(spec_command_effect(mid, *self, op0, now, disk0, res));
                        }
                        res
                    },
                    NumericOperationResult::NeedsFloat(req) => {
                        proof {
                            assert(Self::spec_perform_transition(
                                *old(self),
                                *self,
                                op0,
                                now,
                                disk0,
                                PerformOutcome::NeedsFloat(req),
                            ));
                        }
                        return PerformOutcome::NeedsFloat(req);
                    },
                }
            },
        };
        let ghost mid2 = *self;
        let ok = result.is_ok();
        let staged = self.finish_operation(ok, now);
        proof {
            assert(crate::state::spec_expiry_sweep(*old(self), mid, now));
            assert(spec_command_effect(mid, mid2, op0, now, disk0, result));
            assert(spec_operation_tail(mid2, *self, result is Ok, staged, now));
        }
        let r = PerformOutcome::Done(result, staged);
        proof {
            assert(Self::spec_perform_transition(*old(self), *self, op0, now, disk0, r));
        }
        r
    }

    /// What the background worker does when its target fires: sweep expired
    /// keys, stage a batch when the policy asks for one, republish the
    /// target. Yields the staged batch the caller must persist, if any.
    pub fn background_worker_act(&mut self, now: Timestamp) -> (staged: Option<
        KvMap<Option<Entry>>,
    >)
        requires
            old(self).wf(),
        ensures
            final(self).wf(),
            exists|mid: KeyValueState|
                {
                    &&& #[trigger] crate::state::spec_expiry_sweep(*old(self), mid, now)
                    &&& mid.wf()
                    &&& spec_operation_tail(mid, *final(self), true, staged, now)
                },
    {
        self.remove_expired_keys(now);
        let ghost mid = *self;
        let staged = self.finish_operation(true, now);
        proof {
            assert(crate::state::spec_expiry_sweep(*old(self), mid, now));
        }
        staged
    }

    /// Finishes an operation whose floating-point step the caller has
    /// answered, then runs the same staging and republishing step a finished
    /// operation gets. The expired-key sweep already ran when the step was
    /// requested, so it is not repeated.
    pub fn resume_kv_operation(
        &mut self,
        namespace: Option<&str>,
        key: &str,
        amount: &Numeric,
        saturating: bool,
        subtract: bool,
        answer: FloatAnswer,
        now: Timestamp,
        disk_entry: Option<Entry>,
    ) -> (r: (Result<Output, KvError>, Option<KvMap<Option<Entry>>>))
        requires
            old(self).wf(),
            spec_answer_matches(*amount, answer),
        ensures
            final(self).wf(),
            spec_resume_effect(
                *old(self),
                *final(self),
                match namespace {
                    Some(n) => Some(n@),
                    None => None,
                },
                key@,
                *amount,
                saturating,
                subtract,
                answer,
                now,
                disk_entry.deep_view(),
                r.0,
                r.1,
            ),
    {
        let ghost disk0 = disk_entry.deep_view();
        let result = self.complete_numeric_operation(
            namespace,
            key,
            amount,
            saturating,
            subtract,
            answer,
            now,
            disk_entry,
        );
        let ghost mid = *self;
        let ok = result.is_ok();
        let staged = self.finish_operation(ok, now);
        proof {
            let ns_chars: Option<Seq<char>> = match namespace {
                Some(n) => Some(n@),
                None => None,
            };
            assert(spec_numeric_complete_effect(
                *old(self),
                mid,
                ns_chars,
                key@,
                *amount,
                saturating,
                subtract,
                answer,
                now,
                disk0,
                spec_result_view(result),
            ));
            assert(spec_operation_tail(mid, *self, result is Ok, staged, now));
            assert(spec_resume_effect(
                *old(self),
                *self,
                ns_chars,
                key@,
                *amount,
                saturating,
                subtract,
                answer,
                now,
                disk0,
                result,
                staged,
            ));
        }
        (result, staged)
    }
}

} // verus!
