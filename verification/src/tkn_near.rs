//! Token contracts under `tkn.near` report no events. Their balance changes
//! are read off the calls that they take.

use crate::amount::{amount_value, parsed_amount, Amount};
use crate::cache::{
    after_store, balance_of, distinct_keys, lemma_after_store, BalanceEntry, FtBalanceCache,
};
use crate::coin::{
    build_event, build_transfer_pair, candidate, context_of, escape_memo, escaped_memo,
    event_context, single, transfer_pair, AccountWithContract, AccountWithContractView,
    CandidateEvent, CandidateEventView, Cause, EventContext, EventContextView,
};
use crate::contracts::{is_inconsistent, ContractView, ContractsHelper};
use crate::event_types::Record;
use crate::events::{events_of_logs, extract_events};
use crate::json::{json_parsed, Json};
use crate::legacy_args::{
    FtNew, FtNewView, FtRefund, FtRefundView, FtTransfer, FtTransferView, NearWithdraw,
    NearWithdrawView,
};
use crate::outcome::{
    Action, ActionView, BlockHeader, BlockHeaderView, ExecutionStatus, ExecutionStatusView,
    RawOutcome, RawOutcomeView,
};
use crate::text::{chars_of, range_ends_with, range_starts_with, same_text};
use vstd::prelude::*;
use vstd::string::{StrSliceExecFns, StringSliceAdditionalSpecFns};
use vstd::utf8::encode_utf8;

verus! {

/// Whether the text matches the pattern somewhere; nothing where the
/// pattern is no regular expression.
pub uninterp spec fn regex_matches(pattern: Seq<char>, text: Seq<char>) -> Option<bool>;

/// `Regex::new` and `Regex::is_match` of the crate `regex`: compiles the
/// pattern and tells whether it matches anywhere in the text. The contract
/// names the answer, and says that there is none exactly when the pattern
/// does not compile.
#[verifier::external_body]
fn regex_is_match(pattern: &str, text: &str) -> (out: Option<bool>)
    ensures
        out == regex_matches(pattern@, text@),
{
    match regex::Regex::new(pattern) {
        Ok(re) => Some(re.is_match(text)),
        Err(_) => None,
    }
}

/// The bytes that a base64 text stands for, if it is one.
pub uninterp spec fn base64_decoded(text: Seq<char>) -> Option<Seq<u8>>;

/// `base64::decode`: decodes standard base64. The contract names the bytes
/// and says that there are none exactly when the call fails. The call
/// panics where the length of the text, rounded up to its chunk size, passes
/// the machine's word; `requires` rules that out.
#[verifier::external_body]
fn base64_decode(text: &str) -> (out: Option<Vec<u8>>)
    requires
        text.spec_bytes().len() + 7 <= usize::MAX,
    ensures
        match out {
            Some(bytes) => base64_decoded(text@) == Some(bytes@),
            None => base64_decoded(text@) is None,
        },
{
    match base64::decode(text) {
        Ok(bytes) => Some(bytes),
        Err(_) => None,
    }
}

/// The ending that marks a token contract of this family.
pub open spec fn tkn_near_suffix() -> Seq<char> {
    ".tkn.near"@
}

/// The pattern that the name before the ending has to match: one or more
/// lower-case letters, digits and hyphens.
pub open spec fn tkn_near_pattern() -> Seq<char> {
    "^[a-z0-9\\-]+$"@
}

/// Whether `contract_id` names a token contract of this family: it ends in
/// `.tkn.near`, and what stands before matches the pattern.
pub open spec fn is_tkn_near(contract_id: Seq<char>) -> bool {
    tkn_near_suffix().is_suffix_of(contract_id) && regex_matches(
        tkn_near_pattern(),
        contract_id.take(contract_id.len() - tkn_near_suffix().len()),
    ) == Some(true)
}

/// Decides from what the pattern said of the name whether the contract is
/// of this family.
pub fn name_accepted(matched: Option<bool>) -> (b: bool)
    ensures
        b == (matched == Some(true)),
{
    match matched {
        Some(m) => m,
        None => false,
    }
}

/// Whether `contract_id` names a token contract of this family.
pub fn is_tkn_near_contract(contract_id: &str) -> (b: bool)
    ensures
        b == is_tkn_near(contract_id@),
{
    let chars = chars_of(contract_id);
    let suffix = chars_of(".tkn.near");
    assert(chars@.subrange(0, chars.len() as int) =~= contract_id@);
    if !range_ends_with(&chars, 0, chars.len(), &suffix) {
        return false;
    }
    let prefix = contract_id.substring_char(0, chars.len() - suffix.len());
    name_accepted(regex_is_match("^[a-z0-9\\-]+$", prefix))
}

/// What a base64 text of JSON arguments writes, read as a `T`. A text too
/// long for the decoder counts as undecodable.
pub open spec fn decoded_args<T: Record>(args: Seq<char>) -> Option<<T as DeepView>::V> {
    if encode_utf8(args).len() + 7 > usize::MAX {
        None
    } else {
        match base64_decoded(args) {
            Some(bytes) => match json_parsed(bytes) {
                Some(document) => T::decoded(document),
                None => None,
            },
            None => None,
        }
    }
}

/// Reads a `T` from a base64 text of JSON arguments.
pub fn decode_args<T: Record>(args: &str) -> (out: Option<T>)
    ensures
        out.deep_view() == decoded_args::<T>(args@),
{
    if args.as_bytes().len() > usize::MAX - 7 {
        return None;
    }
    match base64_decode(args) {
        Some(bytes) => match Json::parse(bytes.as_slice()) {
            Some(document) => T::decode(&document),
            None => None,
        },
        None => None,
    }
}

/// The amount that a call handed back: a base64 text of a JSON string that
/// writes a whole number.
pub open spec fn returned_amount(value: Seq<char>) -> Option<int> {
    match decoded_args::<String>(value) {
        Some(text) => parsed_amount(text),
        None => None,
    }
}

/// Reads the amount that a call handed back.
pub fn decode_returned_amount(value: &str) -> (out: Option<Amount>)
    ensures
        amount_value(out) == returned_amount(value@),
{
    match decode_args::<String>(value) {
        Some(text) => Amount::parse_decimal(text.as_str()),
        None => None,
    }
}

/// The calls that change balances, by method name.
#[derive(Debug, Clone, Copy, PartialEq, Eq, Structural)]
pub enum LegacyMethod {
    StorageDeposit,
    New,
    NearDeposit,
    FtTransfer,
    FtResolveTransfer,
    NearWithdraw,
    /// Any method that is not known to change a balance.
    Other,
}

/// The call that a method name stands for.
pub open spec fn method_of(name: Seq<char>) -> LegacyMethod {
    if name == "storage_deposit"@ {
        LegacyMethod::StorageDeposit
    } else if name == "new"@ {
        LegacyMethod::New
    } else if name == "near_deposit"@ {
        LegacyMethod::NearDeposit
    } else if name == "ft_transfer"@ || name == "ft_transfer_call"@ {
        LegacyMethod::FtTransfer
    } else if name == "ft_resolve_transfer"@ {
        LegacyMethod::FtResolveTransfer
    } else if name == "near_withdraw"@ {
        LegacyMethod::NearWithdraw
    } else {
        LegacyMethod::Other
    }
}

/// Tells which call a method name stands for.
pub fn legacy_method(name: &str) -> (out: LegacyMethod)
    ensures
        out == method_of(name@),
{
    if same_text(name, "storage_deposit") {
        LegacyMethod::StorageDeposit
    } else if same_text(name, "new") {
        LegacyMethod::New
    } else if same_text(name, "near_deposit") {
        LegacyMethod::NearDeposit
    } else if same_text(name, "ft_transfer") || same_text(name, "ft_transfer_call") {
        LegacyMethod::FtTransfer
    } else if same_text(name, "ft_resolve_transfer") {
        LegacyMethod::FtResolveTransfer
    } else if same_text(name, "near_withdraw") {
        LegacyMethod::NearWithdraw
    } else {
        LegacyMethod::Other
    }
}

/// Why a call could not be read.
#[derive(Debug, Clone, Copy, PartialEq, Eq, Structural)]
pub enum DecodeError {
    /// The call succeeded, yet its arguments cannot be read.
    Arguments,
    /// The call succeeded with a value that is no amount.
    ReturnValue,
}


/// A call to a legacy token contract, as far as it changes balances.
#[derive(Debug, Clone, PartialEq, Eq)]
pub enum LegacyCall {
    /// A call that changes no balance, or that never took effect.
    Nothing,
    /// The contract was set up with its whole supply.
    New(FtNew),
    /// The caller wrapped the attached deposit.
    Deposit(u128),
    /// The caller sent tokens.
    Transfer(FtTransfer),
    /// A transfer was resolved; `passed_on` of its amount stayed with the
    /// receiver.
    Resolved { args: FtRefund, passed_on: Amount },
    /// The caller unwrapped tokens.
    Withdraw(NearWithdraw),
}

pub enum LegacyCallView {
    Nothing,
    New(FtNewView),
    Deposit(u128),
    Transfer(FtTransferView),
    Resolved { args: FtRefundView, passed_on: int },
    Withdraw(NearWithdrawView),
}

impl DeepView for LegacyCall {
    type V = LegacyCallView;

    open spec fn deep_view(&self) -> LegacyCallView {
        match self {
            LegacyCall::Nothing => LegacyCallView::Nothing,
            LegacyCall::New(a) => LegacyCallView::New(a.deep_view()),
            LegacyCall::Deposit(d) => LegacyCallView::Deposit(*d),
            LegacyCall::Transfer(a) => LegacyCallView::Transfer(a.deep_view()),
            LegacyCall::Resolved { args, passed_on } => LegacyCallView::Resolved {
                args: args.deep_view(),
                passed_on: passed_on@,
            },
            LegacyCall::Withdraw(a) => LegacyCallView::Withdraw(a.deep_view()),
        }
    }
}

impl View for LegacyCall {
    type V = LegacyCallView;

    open spec fn view(&self) -> LegacyCallView {
        self.deep_view()
    }
}

/// The arguments of a call, read with regard to how the call ended: a call
/// that failed may carry anything and is passed over where its arguments
/// cannot be read; a call that succeeded must be readable.
pub open spec fn checked_args<T: Record>(args: Seq<char>, status: ExecutionStatusView) -> Result<
    Option<<T as DeepView>::V>,
    DecodeError,
> {
    match decoded_args::<T>(args) {
        Some(a) => Ok(Some(a)),
        None => if status.succeeded() {
            Err(DecodeError::Arguments)
        } else {
            Ok(None)
        },
    }
}

/// Decides what to make of arguments that were read, or could not be.
pub fn check_args<T: Record>(decoded: Option<T>, status: &ExecutionStatus) -> (out: Result<
    Option<T>,
    DecodeError,
>)
    ensures
        match out {
            Ok(a) => a.deep_view() == decoded.deep_view() && (decoded is None
                ==> !status@.succeeded()),
            Err(e) => e == DecodeError::Arguments && decoded is None && status@.succeeded(),
        },
{
    match decoded {
        Some(a) => Ok(Some(a)),
        None => if status.succeeded() {
            Err(DecodeError::Arguments)
        } else {
            Ok(None)
        },
    }
}

/// Reads the arguments of a call with regard to how the call ended.
pub fn read_args<T: Record>(args: &str, status: &ExecutionStatus) -> (out: Result<
    Option<T>,
    DecodeError,
>)
    ensures
        match out {
            Ok(a) => checked_args::<T>(args@, status@) == Ok::<_, DecodeError>(a.deep_view()),
            Err(e) => checked_args::<T>(args@, status@) == Err::<Option<<T as DeepView>::V>, _>(e),
        },
{
    check_args(decode_args::<T>(args), status)
}

/// The part of a resolved transfer that stayed with the receiver: what the
/// call handed back, where it succeeded with a value; nothing otherwise.
pub open spec fn passed_on_amount(status: ExecutionStatusView) -> Result<int, DecodeError> {
    match status {
        ExecutionStatusView::SuccessValue(value) => match returned_amount(value) {
            Some(amount) => Ok(amount),
            None => Err(DecodeError::ReturnValue),
        },
        _ => Ok(0),
    }
}

/// Reads the part of a resolved transfer that stayed with the receiver.
pub fn read_passed_on(status: &ExecutionStatus) -> (out: Result<Amount, DecodeError>)
    ensures
        match out {
            Ok(amount) => passed_on_amount(status@) == Ok::<_, DecodeError>(amount@),
            Err(e) => passed_on_amount(status@) == Err::<int, _>(e),
        },
{
    match status {
        ExecutionStatus::SuccessValue(value) => match decode_returned_amount(value.as_str()) {
            Some(amount) => Ok(amount),
            None => Err(DecodeError::ReturnValue),
        },
        _ => Ok(Amount::zero()),
    }
}

/// What a call of `ft_resolve_transfer` stands for.
pub open spec fn resolved_call(args: Seq<char>, outcome: RawOutcomeView) -> Result<
    LegacyCallView,
    DecodeError,
> {
    if outcome.logs.len() == 0 {
        Ok(LegacyCallView::Nothing)
    } else {
        match checked_args::<FtRefund>(args, outcome.status) {
            Err(e) => Err(e),
            Ok(None) => Ok(LegacyCallView::Nothing),
            Ok(Some(a)) => match passed_on_amount(outcome.status) {
                Err(e) => Err(e),
                Ok(passed_on) => Ok(LegacyCallView::Resolved { args: a, passed_on }),
            },
        }
    }
}

/// What an action stands for, as far as it changes balances. Only function
/// calls do, and of those only the known methods.
pub open spec fn legacy_call(action: ActionView, outcome: RawOutcomeView) -> Result<
    LegacyCallView,
    DecodeError,
> {
    match action {
        ActionView::Other => Ok(LegacyCallView::Nothing),
        ActionView::FunctionCall { method_name, args, deposit } => match method_of(method_name) {
            LegacyMethod::StorageDeposit => Ok(LegacyCallView::Nothing),
            LegacyMethod::New => match checked_args::<FtNew>(args, outcome.status) {
                Err(e) => Err(e),
                Ok(None) => Ok(LegacyCallView::Nothing),
                Ok(Some(a)) => Ok(LegacyCallView::New(a)),
            },
            LegacyMethod::NearDeposit => Ok(LegacyCallView::Deposit(deposit)),
            LegacyMethod::FtTransfer => match checked_args::<FtTransfer>(args, outcome.status) {
                Err(e) => Err(e),
                Ok(None) => Ok(LegacyCallView::Nothing),
                Ok(Some(a)) => Ok(LegacyCallView::Transfer(a)),
            },
            LegacyMethod::FtResolveTransfer => resolved_call(args, outcome),
            LegacyMethod::NearWithdraw => match checked_args::<NearWithdraw>(
                args,
                outcome.status,
            ) {
                Err(e) => Err(e),
                Ok(None) => Ok(LegacyCallView::Nothing),
                Ok(Some(a)) => Ok(LegacyCallView::Withdraw(a)),
            },
            LegacyMethod::Other => Ok(LegacyCallView::Nothing),
        },
    }
}

/// Whether `out` is what `model` says, a call by its view.
pub open spec fn call_agrees(
    out: Result<LegacyCall, DecodeError>,
    model: Result<LegacyCallView, DecodeError>,
) -> bool {
    match out {
        Ok(call) => model == Ok::<_, DecodeError>(call@),
        Err(e) => model == Err::<LegacyCallView, _>(e),
    }
}

/// Reads what an action stands for.
pub fn decode_legacy_call(action: &Action, outcome: &RawOutcome) -> (out: Result<
    LegacyCall,
    DecodeError,
>)
    ensures
        call_agrees(out, legacy_call(action@, outcome@)),
{
    match action {
        Action::Other => Ok(LegacyCall::Nothing),
        Action::FunctionCall { method_name, args, deposit } => {
            match legacy_method(method_name.as_str()) {
                LegacyMethod::StorageDeposit => Ok(LegacyCall::Nothing),
                LegacyMethod::New => match read_args::<FtNew>(args.as_str(), &outcome.status) {
                    Err(e) => Err(e),
                    Ok(None) => Ok(LegacyCall::Nothing),
                    Ok(Some(a)) => Ok(LegacyCall::New(a)),
                },
                LegacyMethod::NearDeposit => Ok(LegacyCall::Deposit(*deposit)),
                LegacyMethod::FtTransfer => match read_args::<FtTransfer>(
                    args.as_str(),
                    &outcome.status,
                ) {
                    Err(e) => Err(e),
                    Ok(None) => Ok(LegacyCall::Nothing),
                    Ok(Some(a)) => Ok(LegacyCall::Transfer(a)),
                },
                LegacyMethod::FtResolveTransfer => {
                    if outcome.logs.len() == 0 {
                        Ok(LegacyCall::Nothing)
                    } else {
                        match read_args::<FtRefund>(args.as_str(), &outcome.status) {
                            Err(e) => Err(e),
                            Ok(None) => Ok(LegacyCall::Nothing),
                            Ok(Some(a)) => match read_passed_on(&outcome.status) {
                                Err(e) => Err(e),
                                Ok(passed_on) => Ok(LegacyCall::Resolved { args: a, passed_on }),
                            },
                        }
                    }
                },
                LegacyMethod::NearWithdraw => match read_args::<NearWithdraw>(
                    args.as_str(),
                    &outcome.status,
                ) {
                    Err(e) => Err(e),
                    Ok(None) => Ok(LegacyCall::Nothing),
                    Ok(Some(a)) => Ok(LegacyCall::Withdraw(a)),
                },
                LegacyMethod::Other => Ok(LegacyCall::Nothing),
            }
        },
    }
}


/// How a resolved transfer is undone.
#[derive(Debug, Clone, Copy, PartialEq, Eq, Structural)]
pub enum Reversal {
    /// Nothing is undone.
    Nothing,
    /// The sender is gone: the tokens are burnt.
    Burn,
    /// The tokens go back to the sender.
    Refund,
}

/// The log line that tells that the sender is gone.
pub open spec fn sender_deleted_line() -> Seq<char> {
    "The account of the sender was deleted"@
}

/// The beginning of the log line that tells of a refund.
pub open spec fn refund_marker() -> Seq<char> {
    "Refund "@
}

/// How the logs say that a resolved transfer is undone: the first line that
/// tells of a deleted sender or of a refund decides; without such a line,
/// nothing is undone.
pub open spec fn reversal_of(logs: Seq<Seq<char>>) -> Reversal
    decreases logs.len(),
{
    if logs.len() == 0 {
        Reversal::Nothing
    } else if logs[0] == sender_deleted_line() {
        Reversal::Burn
    } else if refund_marker().is_prefix_of(logs[0]) {
        Reversal::Refund
    } else {
        reversal_of(logs.drop_first())
    }
}

/// Reads from the logs how a resolved transfer is undone.
pub fn find_reversal(logs: &Vec<String>) -> (out: Reversal)
    ensures
        out == reversal_of(logs.deep_view()),
{
    let marker = chars_of("Refund ");
    let ghost all = logs.deep_view();
    let mut i: usize = 0;
    assert(all.skip(0) =~= all);
    while i < logs.len()
        invariant
            i <= logs.len(),
            all == logs.deep_view(),
            marker@ == refund_marker(),
            reversal_of(all) == reversal_of(all.skip(i as int)),
        decreases logs.len() - i,
    {
        proof {
            assert(all.skip(i as int).drop_first() =~= all.skip(i + 1));
            assert(all.skip(i as int)[0] == logs[i as int]@);
        }
        if same_text(logs[i].as_str(), "The account of the sender was deleted") {
            return Reversal::Burn;
        }
        let line = chars_of(logs[i].as_str());
        assert(line@.subrange(0, line.len() as int) =~= line@);
        if range_starts_with(&line, 0, line.len(), &marker) {
            return Reversal::Refund;
        }
        i = i + 1;
    }
    Reversal::Nothing
}

/// The balance changes that a call stands for, in the order in which they
/// are stored.
pub open spec fn events_of_call(
    call: LegacyCallView,
    outcome: RawOutcomeView,
    context: EventContextView,
) -> Seq<CandidateEventView> {
    match call {
        LegacyCallView::Nothing => Seq::empty(),
        LegacyCallView::New(a) => seq![
            candidate(context, a.owner_id, None, a.total_supply as int, Cause::Mint, None),
        ],
        LegacyCallView::Deposit(deposit) => seq![
            candidate(context, outcome.predecessor_id, None, deposit as int, Cause::Mint, None),
        ],
        LegacyCallView::Transfer(a) => transfer_pair(
            context,
            outcome.predecessor_id,
            a.receiver_id,
            a.amount as int,
            escaped_memo(a.memo),
        ),
        LegacyCallView::Resolved { args, passed_on } => match reversal_of(outcome.logs) {
            Reversal::Nothing => Seq::empty(),
            Reversal::Burn => seq![
                candidate(
                    context,
                    args.receiver_id,
                    None,
                    -(args.amount - passed_on),
                    Cause::Burn,
                    escaped_memo(args.memo),
                ),
            ],
            Reversal::Refund => transfer_pair(
                context,
                args.receiver_id,
                args.sender_id,
                args.amount - passed_on,
                escaped_memo(args.memo),
            ),
        },
        LegacyCallView::Withdraw(a) => seq![
            candidate(context, outcome.predecessor_id, None, -(a.amount as int), Cause::Burn, None),
        ],
    }
}

/// Builds the balance changes that a call stands for.
pub fn build_call_events(call: &LegacyCall, outcome: &RawOutcome, context: &EventContext) -> (out:
    Vec<CandidateEvent>)
    ensures
        out.deep_view() == events_of_call(call@, outcome@, context@),
{
    let none: Option<String> = None;
    match call {
        LegacyCall::Nothing => {
            let out: Vec<CandidateEvent> = Vec::new();
            assert(out.deep_view() =~= Seq::<CandidateEventView>::empty());
            out
        },
        LegacyCall::New(a) => single(
            build_event(
                context,
                &a.owner_id,
                None,
                Amount::from_u128(a.total_supply),
                Cause::Mint,
                &none,
            ),
        ),
        LegacyCall::Deposit(deposit) => single(
            build_event(
                context,
                &outcome.predecessor_id,
                None,
                Amount::from_u128(*deposit),
                Cause::Mint,
                &none,
            ),
        ),
        LegacyCall::Transfer(a) => build_transfer_pair(
            context,
            &outcome.predecessor_id,
            &a.receiver_id,
            Amount::from_u128(a.amount),
            &escape_memo(&a.memo),
        ),
        LegacyCall::Resolved { args, passed_on } => {
            let delta = Amount::from_u128(args.amount).minus(passed_on);
            match find_reversal(&outcome.logs) {
                Reversal::Nothing => {
                    let out: Vec<CandidateEvent> = Vec::new();
                    assert(out.deep_view() =~= Seq::<CandidateEventView>::empty());
                    out
                },
                Reversal::Burn => single(
                    build_event(
                        context,
                        &args.receiver_id,
                        None,
                        delta.negated(),
                        Cause::Burn,
                        &escape_memo(&args.memo),
                    ),
                ),
                Reversal::Refund => build_transfer_pair(
                    context,
                    &args.receiver_id,
                    &args.sender_id,
                    delta,
                    &escape_memo(&args.memo),
                ),
            }
        },
        LegacyCall::Withdraw(a) => single(
            build_event(
                context,
                &outcome.predecessor_id,
                None,
                Amount::from_u128(a.amount).negated(),
                Cause::Burn,
                &none,
            ),
        ),
    }
}

/// The balance that a call makes known ahead of any query: the owner named
/// in `new` held nothing before the contract was set up.
pub open spec fn seed_of_call(call: LegacyCallView, outcome: RawOutcomeView) -> Option<
    AccountWithContractView,
> {
    match call {
        LegacyCallView::New(a) => Some(
            AccountWithContractView {
                account_id: a.owner_id,
                contract_account_id: outcome.executor_id,
            },
        ),
        _ => None,
    }
}

/// The cache once a call has made its balance known: the owner named in
/// `new` is kept with a balance of zero.
pub open spec fn seeded(
    entries: Seq<BalanceEntry>,
    limit: nat,
    call: LegacyCallView,
    outcome: RawOutcomeView,
) -> Seq<BalanceEntry> {
    match seed_of_call(call, outcome) {
        Some(key) => after_store(entries, key, 0, limit),
        None => entries,
    }
}

/// A call of `new` mints the whole supply to the owner and makes known that
/// the owner held nothing before: the cache then keeps zero for the owner,
/// not the supply.
pub proof fn lemma_new_seeds_zero(
    entries: Seq<BalanceEntry>,
    limit: nat,
    a: FtNewView,
    outcome: RawOutcomeView,
    context: EventContextView,
)
    requires
        distinct_keys(entries),
        entries.len() <= limit,
        0 < limit,
    ensures
        events_of_call(LegacyCallView::New(a), outcome, context) == seq![
            candidate(context, a.owner_id, None, a.total_supply as int, Cause::Mint, None),
        ],
        balance_of(
            seeded(entries, limit, LegacyCallView::New(a), outcome),
            AccountWithContractView {
                account_id: a.owner_id,
                contract_account_id: outcome.executor_id,
            },
        ) == Some(0u128),
{
    lemma_after_store(
        entries,
        AccountWithContractView { account_id: a.owner_id, contract_account_id: outcome.executor_id },
        0,
        limit,
    );
}

/// Keeps in the cache the balance that a call makes known.
pub fn seed_cache(cache: &mut FtBalanceCache, call: &LegacyCall, outcome: &RawOutcome)
    requires
        old(cache).wf(),
    ensures
        final(cache).wf(),
        final(cache).limit() == old(cache).limit(),
        final(cache)@ == seeded(old(cache)@, old(cache).limit(), call@, outcome@),
{
    match call {
        LegacyCall::New(a) => {
            let key = AccountWithContract {
                account_id: a.owner_id.clone(),
                contract_account_id: outcome.executor_id.clone(),
            };
            cache.set(key, 0);
        },
        _ => {},
    }
}

/// Reads the balance changes off one action of an outcome and keeps in the
/// cache what the call makes known. A call that cannot be read leaves the
/// cache as it was.
pub fn process_tkn_near_functions(
    cache: &mut FtBalanceCache,
    action: &Action,
    outcome: &RawOutcome,
    header: &BlockHeader,
    shard_id: u64,
) -> (out: Result<Vec<CandidateEvent>, DecodeError>)
    requires
        old(cache).wf(),
    ensures
        final(cache).wf(),
        final(cache).limit() == old(cache).limit(),
        match out {
            Ok(events) => match legacy_call(action@, outcome@) {
                Ok(call) => events.deep_view() == events_of_call(
                    call,
                    outcome@,
                    context_of(outcome@, header@, shard_id),
                ) && final(cache)@ == seeded(old(cache)@, old(cache).limit(), call, outcome@),
                Err(_) => false,
            },
            Err(e) => legacy_call(action@, outcome@) == Err::<LegacyCallView, _>(e)
                && final(cache)@ == old(cache)@,
        },
{
    match decode_legacy_call(action, outcome) {
        Ok(call) => {
            let context = event_context(outcome, header, shard_id);
            seed_cache(cache, &call, outcome);
            Ok(build_call_events(&call, outcome, &context))
        },
        Err(e) => Err(e),
    }
}


/// Every transfer that can be read is stored as two events: the deltas
/// cancel, the memo is one, and each names the other's account.
pub proof fn lemma_transfer_events(a: FtTransferView, outcome: RawOutcomeView, context: EventContextView)
    ensures
        ({
            let events = events_of_call(LegacyCallView::Transfer(a), outcome, context);
            &&& events.len() == 2
            &&& events[0].delta == -events[1].delta
            &&& events[0].memo == events[1].memo
            &&& events[0].cause == Cause::Transfer
            &&& events[1].cause == Cause::Transfer
            &&& events[0].involved_id == Some(events[1].affected_id)
            &&& events[1].involved_id == Some(events[0].affected_id)
        }),
{
}

/// A call of `ft_transfer` or `ft_transfer_call` whose arguments can be read
/// stands for the transfer that the arguments describe.
pub proof fn lemma_transfer_call(
    method_name: Seq<char>,
    args: Seq<char>,
    deposit: u128,
    outcome: RawOutcomeView,
)
    requires
        method_name == "ft_transfer"@ || method_name == "ft_transfer_call"@,
        decoded_args::<FtTransfer>(args) is Some,
    ensures
        legacy_call(ActionView::FunctionCall { method_name, args, deposit }, outcome) == Ok::<
            _,
            DecodeError,
        >(LegacyCallView::Transfer(decoded_args::<FtTransfer>(args)->0)),
{
    reveal_strlit("storage_deposit");
    reveal_strlit("new");
    reveal_strlit("near_deposit");
    reveal_strlit("ft_transfer");
    reveal_strlit("ft_transfer_call");
    assert("storage_deposit"@.len() == 15 && "new"@.len() == 3 && "near_deposit"@.len() == 12
        && "ft_transfer"@.len() == 11 && "ft_transfer_call"@.len() == 16);
}

/// Whether the calls of an outcome are read: the contract is of the family,
/// the outcome reports no event of its own, and the contract has not been
/// found inconsistent.
pub open spec fn is_legacy_outcome(outcome: RawOutcomeView, rows: Seq<ContractView>) -> bool {
    &&& is_tkn_near(outcome.executor_id)
    &&& events_of_logs(outcome.logs).len() == 0
    &&& !is_inconsistent(rows, outcome.executor_id)
}

/// Tells whether the calls of an outcome are read.
pub fn reads_calls_of(outcome: &RawOutcome, contracts: &ContractsHelper) -> (b: bool)
    ensures
        b == is_legacy_outcome(outcome@, contracts@),
{
    if !is_tkn_near_contract(outcome.executor_id.as_str()) {
        return false;
    }
    let events = extract_events(outcome);
    if events.len() > 0 {
        return false;
    }
    !contracts.is_inconsistent(outcome.executor_id.as_str())
}

/// A call together with the place of its outcome in the shard.
#[derive(Debug, Clone, PartialEq, Eq)]
pub struct PlacedCall {
    pub outcome: usize,
    pub call: LegacyCall,
}

pub struct PlacedCallView {
    pub outcome: int,
    pub call: LegacyCallView,
}

impl DeepView for PlacedCall {
    type V = PlacedCallView;

    open spec fn deep_view(&self) -> PlacedCallView {
        PlacedCallView { outcome: self.outcome as int, call: self.call@ }
    }
}

/// The calls that the first `count` actions of the outcome at `place` stand
/// for; the first call that cannot be read spoils them all.
pub open spec fn calls_of_actions(outcome: RawOutcomeView, place: int, count: nat) -> Result<
    Seq<PlacedCallView>,
    DecodeError,
>
    decreases count,
{
    if count == 0 {
        Ok(Seq::empty())
    } else {
        match calls_of_actions(outcome, place, (count - 1) as nat) {
            Err(e) => Err(e),
            Ok(front) => match legacy_call(outcome.actions[count - 1], outcome) {
                Err(e) => Err(e),
                Ok(call) => Ok(front.push(PlacedCallView { outcome: place, call })),
            },
        }
    }
}

/// The calls that the first `count` outcomes of a shard stand for.
pub open spec fn calls_of_outcomes(
    outcomes: Seq<RawOutcomeView>,
    rows: Seq<ContractView>,
    count: nat,
) -> Result<Seq<PlacedCallView>, DecodeError>
    decreases count,
{
    if count == 0 {
        Ok(Seq::empty())
    } else {
        match calls_of_outcomes(outcomes, rows, (count - 1) as nat) {
            Err(e) => Err(e),
            Ok(front) => {
                let outcome = outcomes[count - 1];
                if is_legacy_outcome(outcome, rows) {
                    match calls_of_actions(outcome, count - 1, outcome.actions.len()) {
                        Err(e) => Err(e),
                        Ok(calls) => Ok(front + calls),
                    }
                } else {
                    Ok(front)
                }
            },
        }
    }
}

/// Whether `out` is what `model` says, each call by its view.
pub open spec fn calls_agree(
    out: Result<Vec<PlacedCall>, DecodeError>,
    model: Result<Seq<PlacedCallView>, DecodeError>,
) -> bool {
    match out {
        Ok(calls) => model == Ok::<_, DecodeError>(calls.deep_view()),
        Err(e) => model == Err::<Seq<PlacedCallView>, _>(e),
    }
}

/// Reads the calls of one shard. Nothing is read of an outcome whose
/// contract is not of the family, which reports events of its own, or whose
/// contract has been found inconsistent.
pub fn decode_legacy_calls(outcomes: &Vec<RawOutcome>, contracts: &ContractsHelper) -> (out:
    Result<Vec<PlacedCall>, DecodeError>)
    ensures
        calls_agree(out, calls_of_outcomes(outcomes.deep_view(), contracts@, outcomes.len() as nat)),
        out matches Ok(calls) ==> forall|k: int|
            0 <= k < calls.len() ==> (#[trigger] calls[k]).outcome < outcomes.len(),
{
    let mut out: Vec<PlacedCall> = Vec::new();
    let ghost all = outcomes.deep_view();
    let ghost rows = contracts@;
    let mut i: usize = 0;
    assert(out.deep_view() =~= Seq::<PlacedCallView>::empty());
    while i < outcomes.len()
        invariant
            i <= outcomes.len(),
            all == outcomes.deep_view(),
            rows == contracts@,
            calls_of_outcomes(all, rows, i as nat) == Ok::<_, DecodeError>(out.deep_view()),
            forall|k: int| 0 <= k < out.len() ==> (#[trigger] out[k]).outcome < outcomes.len(),
        decreases outcomes.len() - i,
    {
        let outcome = &outcomes[i];
        assert(all[i as int] == outcome@);
        if reads_calls_of(outcome, contracts) {
            let ghost front = out.deep_view();
            let mut j: usize = 0;
            assert(out.deep_view() =~= front + Seq::<PlacedCallView>::empty());
            while j < outcome.actions.len()
                invariant
                    j <= outcome.actions.len(),
                    i < outcomes.len(),
                    all == outcomes.deep_view(),
                    rows == contracts@,
                    all[i as int] == outcome@,
                    calls_of_actions(outcome@, i as int, j as nat) is Ok,
                    out.deep_view() == front + calls_of_actions(outcome@, i as int, j as nat)->Ok_0,
                    calls_of_outcomes(all, rows, i as nat) == Ok::<_, DecodeError>(front),
                    is_legacy_outcome(outcome@, rows),
                    forall|k: int|
                        0 <= k < out.len() ==> (#[trigger] out[k]).outcome < outcomes.len(),
                decreases outcome.actions.len() - j,
            {
                assert(outcome@.actions[j as int] == outcome.actions[j as int]@);
                match decode_legacy_call(&outcome.actions[j], outcome) {
                    Ok(call) => {
                        let ghost before = out.deep_view();
                        let placed = PlacedCall { outcome: i, call };
                        out.push(placed);
                        assert(out.deep_view() =~= before.push(placed.deep_view()));
                        assert(out.deep_view() =~= front + calls_of_actions(
                            outcome@,
                            i as int,
                            (j + 1) as nat,
                        )->Ok_0);
                    },
                    Err(e) => {
                        proof {
                            let fail = Err::<Seq<PlacedCallView>, _>(e);
                            assert(calls_of_actions(outcome@, i as int, (j + 1) as nat) == fail);
                            lemma_actions_error_upto(
                                outcome@,
                                i as int,
                                (j + 1) as nat,
                                outcome@.actions.len(),
                            );
                            assert(calls_of_outcomes(all, rows, (i + 1) as nat) == fail);
                            lemma_outcomes_error(all, rows, (i + 1) as nat, outcomes.len() as nat);
                        }
                        return Err(e);
                    },
                }
                j = j + 1;
            }
        }
        i = i + 1;
    }
    Ok(out)
}

/// Once some actions cannot be read, more actions cannot be read either, for
/// the same reason.
proof fn lemma_actions_error_upto(outcome: RawOutcomeView, place: int, count: nat, more: nat)
    requires
        calls_of_actions(outcome, place, count) is Err,
        count <= more,
    ensures
        calls_of_actions(outcome, place, more) == calls_of_actions(outcome, place, count),
    decreases more,
{
    if count < more {
        lemma_actions_error_upto(outcome, place, count, (more - 1) as nat);
    }
}

/// Once some outcomes cannot be read, more outcomes cannot be read either,
/// for the same reason.
pub proof fn lemma_outcomes_error(
    outcomes: Seq<RawOutcomeView>,
    rows: Seq<ContractView>,
    count: nat,
    more: nat,
)
    requires
        calls_of_outcomes(outcomes, rows, count) is Err,
        count <= more,
    ensures
        calls_of_outcomes(outcomes, rows, more) == calls_of_outcomes(outcomes, rows, count),
    decreases more,
{
    if count < more {
        lemma_outcomes_error(outcomes, rows, count, (more - 1) as nat);
    }
}


/// The balance changes that the first `count` calls stand for, call by call.
pub open spec fn events_of_calls(
    calls: Seq<PlacedCallView>,
    outcomes: Seq<RawOutcomeView>,
    header: BlockHeaderView,
    shard_id: u64,
    count: nat,
) -> Seq<CandidateEventView>
    decreases count,
{
    if count == 0 {
        Seq::empty()
    } else {
        let placed = calls[count - 1];
        let outcome = outcomes[placed.outcome];
        events_of_calls(calls, outcomes, header, shard_id, (count - 1) as nat) + events_of_call(
            placed.call,
            outcome,
            context_of(outcome, header, shard_id),
        )
    }
}

/// The cache once the first `count` calls have made their balances known.
pub open spec fn seeded_by_calls(
    entries: Seq<BalanceEntry>,
    limit: nat,
    calls: Seq<PlacedCallView>,
    outcomes: Seq<RawOutcomeView>,
    count: nat,
) -> Seq<BalanceEntry>
    decreases count,
{
    if count == 0 {
        entries
    } else {
        let placed = calls[count - 1];
        seeded(
            seeded_by_calls(entries, limit, calls, outcomes, (count - 1) as nat),
            limit,
            placed.call,
            outcomes[placed.outcome],
        )
    }
}

/// Builds the balance changes of the calls of one shard and keeps in the
/// cache what the calls make known.
pub(crate) fn build_legacy_events(
    cache: &mut FtBalanceCache,
    calls: &Vec<PlacedCall>,
    outcomes: &Vec<RawOutcome>,
    header: &BlockHeader,
    shard_id: u64,
) -> (out: Vec<CandidateEvent>)
    requires
        old(cache).wf(),
        forall|k: int| 0 <= k < calls.len() ==> (#[trigger] calls[k]).outcome < outcomes.len(),
    ensures
        final(cache).wf(),
        final(cache).limit() == old(cache).limit(),
        out.deep_view() == events_of_calls(
            calls.deep_view(),
            outcomes.deep_view(),
            header@,
            shard_id,
            calls.len() as nat,
        ),
        final(cache)@ == seeded_by_calls(
            old(cache)@,
            old(cache).limit(),
            calls.deep_view(),
            outcomes.deep_view(),
            calls.len() as nat,
        ),
{
    let mut out: Vec<CandidateEvent> = Vec::new();
    let ghost start = cache@;
    let ghost limit = cache.limit();
    let mut i: usize = 0;
    assert(out.deep_view() =~= Seq::<CandidateEventView>::empty());
    while i < calls.len()
        invariant
            i <= calls.len(),
            cache.wf(),
            cache.limit() == limit,
            forall|k: int| 0 <= k < calls.len() ==> (#[trigger] calls[k]).outcome < outcomes.len(),
            out.deep_view() == events_of_calls(
                calls.deep_view(),
                outcomes.deep_view(),
                header@,
                shard_id,
                i as nat,
            ),
            cache@ == seeded_by_calls(
                start,
                limit,
                calls.deep_view(),
                outcomes.deep_view(),
                i as nat,
            ),
        decreases calls.len() - i,
    {
        let placed = &calls[i];
        let outcome = &outcomes[placed.outcome];
        assert(calls.deep_view()[i as int] == placed.deep_view());
        assert(outcomes.deep_view()[placed.outcome as int] == outcome@);
        let context = event_context(outcome, header, shard_id);
        seed_cache(cache, &placed.call, outcome);
        let mut events = build_call_events(&placed.call, outcome, &context);
        let ghost before = out.deep_view();
        let ghost added = events.deep_view();
        out.append(&mut events);
        assert(out.deep_view() =~= before + added);
        i = i + 1;
    }
    out
}

/// Reads the balance changes off the calls of one shard; see
/// `decode_legacy_calls` for the outcomes that are read. One call that
/// cannot be read fails the shard and leaves the cache as it was.
pub fn collect_tkn_near(
    cache: &mut FtBalanceCache,
    contracts: &ContractsHelper,
    shard_id: u64,
    outcomes: &Vec<RawOutcome>,
    header: &BlockHeader,
) -> (out: Result<Vec<CandidateEvent>, DecodeError>)
    requires
        old(cache).wf(),
    ensures
        final(cache).wf(),
        final(cache).limit() == old(cache).limit(),
        match calls_of_outcomes(outcomes.deep_view(), contracts@, outcomes.len() as nat) {
            Ok(calls) => {
                &&& out matches Ok(events)
                &&& events.deep_view() == events_of_calls(
                    calls,
                    outcomes.deep_view(),
                    header@,
                    shard_id,
                    calls.len(),
                )
                &&& final(cache)@ == seeded_by_calls(
                    old(cache)@,
                    old(cache).limit(),
                    calls,
                    outcomes.deep_view(),
                    calls.len(),
                )
            },
            Err(e) => out == Err::<Vec<CandidateEvent>, _>(e) && final(cache)@ == old(cache)@,
        },
{
    match decode_legacy_calls(outcomes, contracts) {
        Ok(calls) => Ok(build_legacy_events(cache, &calls, outcomes, header, shard_id)),
        Err(e) => Err(e),
    }
}

} // verus!
