use vstd::prelude::*;
use crate::error::ErrorCode;

verus! {

/// A target whose recording ended on purpose.
#[derive(Clone, Debug)]
pub struct SuccessRecord {
    pub target: String,
    pub file: String,
}

/// A target whose recording failed.
#[derive(Clone, Debug)]
pub struct FailureRecord {
    pub target: String,
    pub code: ErrorCode,
    pub message: String,
}

/// A failure as reported after startup and runtime failures are merged; the target is `null`
/// where the runtime error named none.
#[derive(Clone, Debug)]
pub struct FailureEntry {
    pub target: Option<String>,
    pub code: ErrorCode,
    pub message: String,
}

impl FailureEntry {
    pub fn duplicate(&self) -> (copy: FailureEntry)
        ensures
            copy == *self,
    {
        let target = match &self.target {
            Some(target) => Some(target.clone()),
            None => None,
        };
        FailureEntry { target, code: self.code, message: self.message.clone() }
    }
}

impl SuccessRecord {
    pub fn duplicate(&self) -> (copy: SuccessRecord)
        ensures
            copy == *self,
    {
        SuccessRecord { target: self.target.clone(), file: self.file.clone() }
    }
}

impl FailureRecord {
    pub fn duplicate(&self) -> (copy: FailureRecord)
        ensures
            copy == *self,
    {
        FailureRecord { target: self.target.clone(), code: self.code, message: self.message.clone() }
    }

    /// The merged-report form of this failure.
    pub open spec fn spec_entry(self) -> FailureEntry {
        FailureEntry { target: Some(self.target), code: self.code, message: self.message }
    }

    pub fn to_entry(&self) -> (entry: FailureEntry)
        ensures
            entry == self.spec_entry(),
    {
        FailureEntry { target: Some(self.target.clone()), code: self.code, message: self.message.clone() }
    }
}

pub fn duplicate_successes(records: &[SuccessRecord]) -> (copy: Vec<SuccessRecord>)
    ensures
        copy@ == records@,
{
    let mut copy: Vec<SuccessRecord> = Vec::new();
    let mut index: usize = 0;
    while index < records.len()
        invariant
            index <= records@.len(),
            copy@ == records@.subrange(0, index as int),
        decreases records@.len() - index,
    {
        copy.push(records[index].duplicate());
        index += 1;
    }
    copy
}

pub fn duplicate_failures(records: &[FailureRecord]) -> (copy: Vec<FailureRecord>)
    ensures
        copy@ == records@,
{
    let mut copy: Vec<FailureRecord> = Vec::new();
    let mut index: usize = 0;
    while index < records.len()
        invariant
            index <= records@.len(),
            copy@ == records@.subrange(0, index as int),
        decreases records@.len() - index,
    {
        copy.push(records[index].duplicate());
        index += 1;
    }
    copy
}

pub fn duplicate_entries(records: &[FailureEntry]) -> (copy: Vec<FailureEntry>)
    ensures
        copy@ == records@,
{
    let mut copy: Vec<FailureEntry> = Vec::new();
    let mut index: usize = 0;
    while index < records.len()
        invariant
            index <= records@.len(),
            copy@ == records@.subrange(0, index as int),
        decreases records@.len() - index,
    {
        copy.push(records[index].duplicate());
        index += 1;
    }
    copy
}

} // verus!
