//! Rows of the audit log.

use vstd::prelude::*;

verus! {

/// One privileged attempt, as the audit log records it.
#[derive(Debug, Clone, PartialEq)]
pub struct AuditRow {
    pub ts_ms: i64,
    pub actor: String,
    pub op: String,
    pub params: String,
    pub result: String,
    pub detail: String,
}

/// An audit row as the contracts see it.
pub struct AuditRowView {
    pub ts_ms: i64,
    pub actor: Seq<char>,
    pub op: Seq<char>,
    pub params: Seq<char>,
    pub result: Seq<char>,
    pub detail: Seq<char>,
}

impl View for AuditRow {
    type V = AuditRowView;

    open spec fn view(&self) -> AuditRowView {
        AuditRowView {
            ts_ms: self.ts_ms,
            actor: self.actor@,
            op: self.op@,
            params: self.params@,
            result: self.result@,
            detail: self.detail@,
        }
    }
}

} // verus!
