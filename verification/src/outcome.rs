//! What the block stream delivers: headers, execution outcomes, actions.

use vstd::prelude::*;

verus! {

/// How the execution of a receipt ended.
#[derive(Debug, Clone, PartialEq, Eq)]
pub enum ExecutionStatus {
    Unknown,
    Failure,
    /// Success with a return value, base64-encoded.
    SuccessValue(String),
    /// Success that hands on to another receipt.
    SuccessReceiptId,
}

pub enum ExecutionStatusView {
    Unknown,
    Failure,
    SuccessValue(Seq<char>),
    SuccessReceiptId,
}

impl DeepView for ExecutionStatus {
    type V = ExecutionStatusView;

    open spec fn deep_view(&self) -> ExecutionStatusView {
        match self {
            ExecutionStatus::Unknown => ExecutionStatusView::Unknown,
            ExecutionStatus::Failure => ExecutionStatusView::Failure,
            ExecutionStatus::SuccessValue(v) => ExecutionStatusView::SuccessValue(v@),
            ExecutionStatus::SuccessReceiptId => ExecutionStatusView::SuccessReceiptId,
        }
    }
}

impl View for ExecutionStatus {
    type V = ExecutionStatusView;

    open spec fn view(&self) -> ExecutionStatusView {
        self.deep_view()
    }
}

impl ExecutionStatusView {
    /// Whether the call took effect.
    pub open spec fn succeeded(self) -> bool {
        self is SuccessValue || self is SuccessReceiptId
    }
}

impl ExecutionStatus {
    /// Whether the call took effect.
    pub fn succeeded(&self) -> (b: bool)
        ensures
            b == self@.succeeded(),
    {
        match self {
            ExecutionStatus::SuccessValue(_) => true,
            ExecutionStatus::SuccessReceiptId => true,
            _ => false,
        }
    }
}

/// One action of a receipt.
#[derive(Debug, Clone, PartialEq, Eq)]
pub enum Action {
    FunctionCall {
        method_name: String,
        /// The JSON arguments, base64-encoded.
        args: String,
        deposit: u128,
    },
    /// Any action that is no function call.
    Other,
}

pub enum ActionView {
    FunctionCall { method_name: Seq<char>, args: Seq<char>, deposit: u128 },
    Other,
}

impl DeepView for Action {
    type V = ActionView;

    open spec fn deep_view(&self) -> ActionView {
        match self {
            Action::FunctionCall { method_name, args, deposit } => ActionView::FunctionCall {
                method_name: method_name@,
                args: args@,
                deposit: *deposit,
            },
            Action::Other => ActionView::Other,
        }
    }
}

impl View for Action {
    type V = ActionView;

    open spec fn view(&self) -> ActionView {
        self.deep_view()
    }
}

/// The result of executing one receipt.
#[derive(Debug, Clone, PartialEq, Eq)]
pub struct RawOutcome {
    pub receipt_id: String,
    /// The account that ran the receipt: the contract.
    pub executor_id: String,
    /// The account that sent the receipt: the caller.
    pub predecessor_id: String,
    pub logs: Vec<String>,
    pub status: ExecutionStatus,
    /// The actions of an action receipt; none for any other receipt.
    pub actions: Vec<Action>,
}

pub struct RawOutcomeView {
    pub receipt_id: Seq<char>,
    pub executor_id: Seq<char>,
    pub predecessor_id: Seq<char>,
    pub logs: Seq<Seq<char>>,
    pub status: ExecutionStatusView,
    pub actions: Seq<ActionView>,
}

impl DeepView for RawOutcome {
    type V = RawOutcomeView;

    open spec fn deep_view(&self) -> RawOutcomeView {
        RawOutcomeView {
            receipt_id: self.receipt_id@,
            executor_id: self.executor_id@,
            predecessor_id: self.predecessor_id@,
            logs: self.logs.deep_view(),
            status: self.status@,
            actions: self.actions.deep_view(),
        }
    }
}

impl View for RawOutcome {
    type V = RawOutcomeView;

    open spec fn view(&self) -> RawOutcomeView {
        self.deep_view()
    }
}

/// The header of the block under work.
#[derive(Debug, Clone, PartialEq, Eq)]
pub struct BlockHeader {
    pub height: u64,
    /// Nanoseconds since the epoch.
    pub timestamp: u64,
    pub hash: String,
    pub prev_hash: String,
}

pub struct BlockHeaderView {
    pub height: u64,
    pub timestamp: u64,
    pub hash: Seq<char>,
    pub prev_hash: Seq<char>,
}

impl DeepView for BlockHeader {
    type V = BlockHeaderView;

    open spec fn deep_view(&self) -> BlockHeaderView {
        BlockHeaderView {
            height: self.height,
            timestamp: self.timestamp,
            hash: self.hash@,
            prev_hash: self.prev_hash@,
        }
    }
}

impl View for BlockHeader {
    type V = BlockHeaderView;

    open spec fn view(&self) -> BlockHeaderView {
        self.deep_view()
    }
}

} // verus!
