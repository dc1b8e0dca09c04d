//! Logical time (absolute instants and durations in milliseconds) and task identifiers.

use vstd::prelude::*;
use vstd::std_specs::ops::AddSpecImpl;
use vstd::std_specs::convert::FromSpecImpl;
use vstd::std_specs::cmp::{PartialOrdSpec, PartialOrdSpecImpl};
use core::cmp::Ordering;

verus! {

/// An instant on the logical clock, in milliseconds since the start.
#[derive(Clone, Copy, Debug, PartialEq, Eq, Structural, Ord)]
pub struct LogicalTimeAbsoluteMs(pub u64);

impl LogicalTimeAbsoluteMs {
    pub open spec fn millis(&self) -> u64 {
        self.0
    }

    pub fn from_millis(millis: u64) -> (r: Self)
        ensures
            r.millis() == millis,
    {
        Self(millis)
    }

    pub fn as_millis(&self) -> (r: u64)
        ensures
            r == self.millis(),
    {
        self.0
    }
}

/// A duration on the logical clock, in milliseconds.
#[derive(Clone, Copy, Debug, PartialEq, Eq, Structural, Ord)]
pub struct LogicalTimeDeltaMs(pub u64);

impl LogicalTimeDeltaMs {
    pub open spec fn millis(&self) -> u64 {
        self.0
    }

    pub fn from_millis(millis: u64) -> (r: Self)
        ensures
            r.millis() == millis,
    {
        Self(millis)
    }

    pub fn as_millis(&self) -> (r: u64)
        ensures
            r == self.millis(),
    {
        self.0
    }
}

/// An instant moved forward by a duration; the sum must fit in 64 bits.
impl core::ops::Add<LogicalTimeDeltaMs> for LogicalTimeAbsoluteMs {
    type Output = LogicalTimeAbsoluteMs;

    fn add(self, rhs: LogicalTimeDeltaMs) -> (r: LogicalTimeAbsoluteMs) {
        LogicalTimeAbsoluteMs(self.0 + rhs.as_millis())
    }
}

impl AddSpecImpl<LogicalTimeDeltaMs> for LogicalTimeAbsoluteMs {
    open spec fn obeys_add_spec() -> bool {
        true
    }

    open spec fn add_req(self, rhs: LogicalTimeDeltaMs) -> bool {
        self.0 + rhs.0 <= u64::MAX
    }

    open spec fn add_spec(self, rhs: LogicalTimeDeltaMs) -> LogicalTimeAbsoluteMs {
        LogicalTimeAbsoluteMs((self.0 + rhs.0) as u64)
    }
}

impl From<u64> for LogicalTimeDeltaMs {
    fn from(millis: u64) -> (r: Self) {
        Self::from_millis(millis)
    }
}

impl FromSpecImpl<u64> for LogicalTimeDeltaMs {
    open spec fn obeys_from_spec() -> bool {
        true
    }

    open spec fn from_spec(v: u64) -> LogicalTimeDeltaMs {
        LogicalTimeDeltaMs(v)
    }
}

impl From<u64> for LogicalTimeAbsoluteMs {
    fn from(millis: u64) -> (r: Self) {
        Self::from_millis(millis)
    }
}

impl FromSpecImpl<u64> for LogicalTimeAbsoluteMs {
    open spec fn obeys_from_spec() -> bool {
        true
    }

    open spec fn from_spec(v: u64) -> LogicalTimeAbsoluteMs {
        LogicalTimeAbsoluteMs(v)
    }
}

/// The identifier of a scheduled task.
#[derive(Clone, Copy, Debug, PartialEq, Eq, Structural, Ord, Hash)]
pub struct MaroonTaskId(pub u64);

impl MaroonTaskId {
    pub open spec fn value(&self) -> u64 {
        self.0
    }

    pub fn from_u64(id: u64) -> (r: Self)
        ensures
            r.value() == id,
    {
        Self(id)
    }

    pub fn as_u64(&self) -> (r: u64)
        ensures
            r == self.value(),
    {
        self.0
    }
}

impl From<u64> for MaroonTaskId {
    fn from(id: u64) -> (r: Self) {
        Self::from_u64(id)
    }
}

impl FromSpecImpl<u64> for MaroonTaskId {
    open spec fn obeys_from_spec() -> bool {
        true
    }

    open spec fn from_spec(v: u64) -> MaroonTaskId {
        MaroonTaskId(v)
    }
}

/// How two numbers compare.
pub open spec fn order_of(a: u64, b: u64) -> Option<Ordering> {
    if a < b {
        Some(Ordering::Less)
    } else if a == b {
        Some(Ordering::Equal)
    } else {
        Some(Ordering::Greater)
    }
}

fn compare(a: u64, b: u64) -> (r: Option<Ordering>)
    ensures
        r == order_of(a, b),
{
    if a < b {
        Some(Ordering::Less)
    } else if a == b {
        Some(Ordering::Equal)
    } else {
        Some(Ordering::Greater)
    }
}

/// Instants order as their milliseconds do.
impl PartialOrd for LogicalTimeAbsoluteMs {
    fn partial_cmp(&self, other: &Self) -> (r: Option<Ordering>) {
        compare(self.0, other.0)
    }
}

impl PartialOrdSpecImpl for LogicalTimeAbsoluteMs {
    open spec fn obeys_partial_cmp_spec() -> bool {
        true
    }

    open spec fn partial_cmp_spec(&self, other: &Self) -> Option<Ordering> {
        order_of(self.0, other.0)
    }
}

/// Durations order as their milliseconds do.
impl PartialOrd for LogicalTimeDeltaMs {
    fn partial_cmp(&self, other: &Self) -> (r: Option<Ordering>) {
        compare(self.0, other.0)
    }
}

impl PartialOrdSpecImpl for LogicalTimeDeltaMs {
    open spec fn obeys_partial_cmp_spec() -> bool {
        true
    }

    open spec fn partial_cmp_spec(&self, other: &Self) -> Option<Ordering> {
        order_of(self.0, other.0)
    }
}

/// Task identifiers order as their numbers do.
impl PartialOrd for MaroonTaskId {
    fn partial_cmp(&self, other: &Self) -> (r: Option<Ordering>) {
        compare(self.0, other.0)
    }
}

impl PartialOrdSpecImpl for MaroonTaskId {
    open spec fn obeys_partial_cmp_spec() -> bool {
        true
    }

    open spec fn partial_cmp_spec(&self, other: &Self) -> Option<Ordering> {
        order_of(self.0, other.0)
    }
}

/// Task identifiers are equal exactly when their numbers are, and one comes
/// before another exactly when its number is smaller.
pub proof fn lemma_ids_order_like_numbers(a: u64, b: u64)
    ensures
        (MaroonTaskId(a) == MaroonTaskId(b)) == (a == b),
        (PartialOrdSpec::partial_cmp_spec(&MaroonTaskId(a), &MaroonTaskId(b)) == Some(Ordering::Less)) == (a < b),
        (PartialOrdSpec::partial_cmp_spec(&MaroonTaskId(a), &MaroonTaskId(b)) == Some(Ordering::Equal)) == (a == b),
        (PartialOrdSpec::partial_cmp_spec(&MaroonTaskId(a), &MaroonTaskId(b)) == Some(Ordering::Greater)) == (a > b),
{
}

/// Hands out task identifiers 1, 2, 3, ... in order.
#[derive(Clone, Debug)]
pub struct NextTaskIdGenerator {
    next_task_id: u64,
}

impl NextTaskIdGenerator {
    /// The identifier the next call of `next_task_id` returns.
    pub closed spec fn upcoming(&self) -> u64 {
        self.next_task_id
    }

    pub fn new() -> (r: Self)
        ensures
            r.upcoming() == 1,
    {
        Self { next_task_id: 1 }
    }

    /// Whether every identifier has been handed out.
    pub fn is_exhausted(&self) -> (b: bool)
        ensures
            b == (self.upcoming() == u64::MAX),
    {
        self.next_task_id == u64::MAX
    }

    pub fn next_task_id(&mut self) -> (id: MaroonTaskId)
        requires
            old(self).upcoming() < u64::MAX,
        ensures
            id.value() == old(self).upcoming(),
            final(self).upcoming() == old(self).upcoming() + 1,
    {
        let task_id = MaroonTaskId::from_u64(self.next_task_id);
        self.next_task_id = self.next_task_id + 1;
        task_id
    }
}

} // verus!
