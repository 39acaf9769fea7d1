//! Bounded accumulation of a streamed assistant completion.

use std::collections::BTreeMap;

use serde_json::Value;
use vstd::prelude::*;
use vstd::std_specs::btree::{increasing_seq, key_obeys_cmp_spec, spec_btree_map_iter};
use vstd::std_specs::iter::IteratorSpec;
use vstd::utf8::encode_utf8;

use crate::agent::error::Error;
use crate::agent::types::{AssistantResponse, ChatEvent, CompletionLimits, FinishReason, ToolCall, Usage};
use crate::text::{
    byte_len, chars_of, decimal, lemma_encode_utf8_concat, lemma_utf8_len_concat, push_chars,
    push_decimal, push_str, text_of_encoding, trim, trim_range, utf8_len,
};

verus! {

broadcast use vstd::std_specs::btree::group_btree_axioms;

/// One streamed tool call whose fragments are still being received.
#[derive(Debug)]
pub struct PartialToolCall {
    pub id: String,
    pub name: String,
    pub arguments: String,
}

/// The characters received so far for one tool call.
pub struct PartialToolCallView {
    pub id: Seq<char>,
    pub name: Seq<char>,
    pub arguments: Seq<char>,
}

impl View for PartialToolCall {
    type V = PartialToolCallView;

    open spec fn view(&self) -> PartialToolCallView {
        PartialToolCallView { id: self.id@, name: self.name@, arguments: self.arguments@ }
    }
}

impl PartialToolCall {
    pub fn new() -> (call: Self)
        ensures
            call@.id == Seq::<char>::empty(),
            call@.name == Seq::<char>::empty(),
            call@.arguments == Seq::<char>::empty(),
    {
        PartialToolCall { id: String::new(), name: String::new(), arguments: String::new() }
    }
}

/// The characters of an optional fragment; absent fragments are empty.
pub open spec fn fragment(value: Option<String>) -> Seq<char> {
    match value {
        Some(s) => s@,
        None => Seq::empty(),
    }
}

/// Accumulates text, tool-call fragments, usage, and the finish reason of one
/// streamed completion under finite limits.
pub struct ChatAccumulator {
    pub limits: CompletionLimits,
    pub content: String,
    pub calls: BTreeMap<usize, PartialToolCall>,
    pub total_argument_bytes: usize,
    pub usage: Option<Usage>,
    pub finish_reason: Option<FinishReason>,
}

impl ChatAccumulator {
    /// The calls received so far, keyed by their stream index.
    pub open spec fn calls_view(&self) -> Map<usize, PartialToolCallView> {
        self.calls@.map_values(|call: PartialToolCall| call@)
    }

    /// Byte lengths of one call's id, name, and arguments so far, or zero for
    /// an index not seen yet.
    pub open spec fn current_lengths(&self, index: usize) -> (nat, nat, nat) {
        if self.calls@.contains_key(index) {
            let call = self.calls@[index]@;
            (utf8_len(call.id), utf8_len(call.name), utf8_len(call.arguments))
        } else {
            (0, 0, 0)
        }
    }

    /// The sum of the argument byte lengths of all calls.
    pub open spec fn argument_total(calls: Map<usize, PartialToolCallView>) -> nat
        decreases calls.dom().len(),
    {
        if calls.dom().finite() && calls.dom().len() > 0 {
            let k = calls.dom().choose();
            utf8_len(calls[k].arguments) + Self::argument_total(calls.remove(k))
        } else {
            0
        }
    }

    /// The argument total is the argument length of any one call plus the
    /// total of the others.
    pub proof fn lemma_argument_total_remove(calls: Map<usize, PartialToolCallView>, k: usize)
        requires
            calls.dom().finite(),
            calls.dom().contains(k),
        ensures
            Self::argument_total(calls) == utf8_len(calls[k].arguments) + Self::argument_total(
                calls.remove(k),
            ),
        decreases calls.dom().len(),
    {
        if calls.dom().len() == 0 {
            calls.dom().lemma_len0_is_empty();
            assert(false);
        }
        let c = calls.dom().choose();
        if c != k {
            assert(calls.remove(c).dom() =~= calls.dom().remove(c));
            assert(calls.remove(k).dom() =~= calls.dom().remove(k));
            Self::lemma_argument_total_remove(calls.remove(c), k);
            Self::lemma_argument_total_remove(calls.remove(k), c);
            assert(calls.remove(c).remove(k) =~= calls.remove(k).remove(c));
        }
    }

    /// Replacing or adding one call changes the argument total by the
    /// difference of its argument lengths.
    pub proof fn lemma_argument_total_insert(
        calls: Map<usize, PartialToolCallView>,
        k: usize,
        call: PartialToolCallView,
    )
        requires
            calls.dom().finite(),
        ensures
            Self::argument_total(calls.insert(k, call)) + (if calls.dom().contains(k) {
                utf8_len(calls[k].arguments)
            } else {
                0
            }) == Self::argument_total(calls) + utf8_len(call.arguments),
    {
        let updated = calls.insert(k, call);
        assert(updated.dom() =~= calls.dom().insert(k));
        Self::lemma_argument_total_remove(updated, k);
        if calls.dom().contains(k) {
            Self::lemma_argument_total_remove(calls, k);
            assert(updated.remove(k) =~= calls.remove(k));
        } else {
            assert(updated.remove(k) =~= calls);
        }
    }

    /// Every accumulated quantity respects its limit and the running argument
    /// total is the sum over all calls.
    pub open spec fn well_formed(&self) -> bool {
        &&& utf8_len(self.content@) <= self.limits.max_assistant_text_bytes
        &&& self.calls@.len() <= self.limits.max_tool_calls
        &&& self.total_argument_bytes <= self.limits.max_total_tool_argument_bytes
        &&& self.total_argument_bytes == Self::argument_total(self.calls_view())
        &&& forall|k: usize| #[trigger] self.calls@.contains_key(k) ==> {
            let call = self.calls@[k]@;
            &&& utf8_len(call.id) <= self.limits.max_tool_call_id_bytes
            &&& utf8_len(call.name) <= self.limits.max_tool_name_bytes
            &&& utf8_len(call.arguments) <= self.limits.max_tool_argument_bytes
        }
    }

    pub fn new(limits: CompletionLimits) -> (accumulator: Self)
        ensures
            accumulator.limits == limits,
            accumulator.content@ == Seq::<char>::empty(),
            accumulator.calls@ == Map::<usize, PartialToolCall>::empty(),
            accumulator.total_argument_bytes == 0,
            accumulator.usage is None,
            accumulator.finish_reason is None,
            accumulator.well_formed(),
    {
        ChatAccumulator {
            limits,
            content: String::new(),
            calls: BTreeMap::new(),
            total_argument_bytes: 0,
            usage: None,
            finish_reason: None,
        }
    }

    /// Adds `additional` to `current` unless the sum exceeds `limit`.
    pub fn checked_size(current: usize, additional: usize, limit: usize, resource: &'static str) -> (r:
        Result<usize, Error>)
        ensures
            current + additional <= limit ==> r == Ok::<usize, Error>((current + additional) as usize),
            current + additional > limit ==> r == Err::<usize, Error>(
                Error::CompletionLimitExceeded { resource, limit },
            ),
    {
        match current.checked_add(additional) {
            Some(size) => {
                if size > limit {
                    Err(Error::CompletionLimitExceeded { resource, limit })
                } else {
                    Ok(size)
                }
            },
            None => Err(Error::CompletionLimitExceeded { resource, limit }),
        }
    }

    /// Applies one streamed event. A rejected event leaves the accumulator
    /// unchanged; an accepted tool-call fragment is appended to its call.
    pub fn apply(&mut self, event: ChatEvent) -> (r: Result<(), Error>)
        ensures
            final(self).limits == old(self).limits,
            old(self).well_formed() ==> final(self).well_formed(),
            match event {
                ChatEvent::TextDelta(text) => {
                    let fits = utf8_len(old(self).content@) + utf8_len(text@)
                        <= old(self).limits.max_assistant_text_bytes;
                    &&& fits ==> r is Ok && final(self).content@ == old(self).content@ + text@
                    &&& !fits ==> r == Err::<(), Error>(Error::CompletionLimitExceeded {
                        resource: "assistant text",
                        limit: old(self).limits.max_assistant_text_bytes,
                    }) && final(self).content@ == old(self).content@
                    &&& final(self).calls_view() == old(self).calls_view()
                    &&& final(self).total_argument_bytes == old(self).total_argument_bytes
                    &&& final(self).usage == old(self).usage
                    &&& final(self).finish_reason == old(self).finish_reason
                },
                ChatEvent::ToolCallDelta { index, id, name, arguments_delta } => {
                    let limits = old(self).limits;
                    let (cur_id, cur_name, cur_args) = old(self).current_lengths(index);
                    let new_call = !old(self).calls@.contains_key(index);
                    let args_delta = utf8_len(fragment(arguments_delta));
                    let count_error = new_call && old(self).calls@.len() >= limits.max_tool_calls;
                    let id_error = cur_id + utf8_len(fragment(id)) > limits.max_tool_call_id_bytes;
                    let name_error = cur_name + utf8_len(fragment(name))
                        > limits.max_tool_name_bytes;
                    let args_error = cur_args + args_delta > limits.max_tool_argument_bytes;
                    let total_error = old(self).total_argument_bytes + args_delta
                        > limits.max_total_tool_argument_bytes;
                    let rejected = count_error || id_error || name_error || args_error
                        || total_error;
                    &&& count_error ==> r == Err::<(), Error>(Error::CompletionLimitExceeded {
                        resource: "tool call count",
                        limit: limits.max_tool_calls,
                    })
                    &&& !count_error && id_error ==> r == Err::<(), Error>(
                        Error::CompletionLimitExceeded {
                            resource: "tool call id",
                            limit: limits.max_tool_call_id_bytes,
                        },
                    )
                    &&& !count_error && !id_error && name_error ==> r == Err::<(), Error>(
                        Error::CompletionLimitExceeded {
                            resource: "tool name",
                            limit: limits.max_tool_name_bytes,
                        },
                    )
                    &&& !count_error && !id_error && !name_error && args_error ==> r == Err::<
                        (),
                        Error,
                    >(
                        Error::CompletionLimitExceeded {
                            resource: "tool call arguments",
                            limit: limits.max_tool_argument_bytes,
                        },
                    )
                    &&& !count_error && !id_error && !name_error && !args_error && total_error
                        ==> r == Err::<(), Error>(
                        Error::CompletionLimitExceeded {
                            resource: "total tool call arguments",
                            limit: limits.max_total_tool_argument_bytes,
                        },
                    )
                    &&& rejected ==> final(self).calls_view() == old(self).calls_view()
                        && final(self).total_argument_bytes == old(self).total_argument_bytes
                    &&& !rejected ==> {
                        let before = if new_call {
                            PartialToolCallView {
                                id: Seq::empty(),
                                name: Seq::empty(),
                                arguments: Seq::empty(),
                            }
                        } else {
                            old(self).calls_view()[index]
                        };
                        &&& r is Ok
                        &&& final(self).calls_view() == old(self).calls_view().insert(
                            index,
                            PartialToolCallView {
                                id: before.id + fragment(id),
                                name: before.name + fragment(name),
                                arguments: before.arguments + fragment(arguments_delta),
                            },
                        )
                        &&& final(self).total_argument_bytes == old(self).total_argument_bytes
                            + args_delta
                    }
                    &&& final(self).content@ == old(self).content@
                    &&& final(self).usage == old(self).usage
                    &&& final(self).finish_reason == old(self).finish_reason
                },
                ChatEvent::Usage(usage) => {
                    &&& r is Ok
                    &&& final(self).usage == Some(usage)
                    &&& final(self).content@ == old(self).content@
                    &&& final(self).calls_view() == old(self).calls_view()
                    &&& final(self).total_argument_bytes == old(self).total_argument_bytes
                    &&& final(self).finish_reason == old(self).finish_reason
                },
                ChatEvent::FinishReason(reason) => {
                    &&& r is Ok
                    &&& final(self).finish_reason == Some(reason)
                    &&& final(self).content@ == old(self).content@
                    &&& final(self).calls_view() == old(self).calls_view()
                    &&& final(self).total_argument_bytes == old(self).total_argument_bytes
                    &&& final(self).usage == old(self).usage
                },
                ChatEvent::Done => {
                    &&& r is Ok
                    &&& final(self).content@ == old(self).content@
                    &&& final(self).calls_view() == old(self).calls_view()
                    &&& final(self).total_argument_bytes == old(self).total_argument_bytes
                    &&& final(self).usage == old(self).usage
                    &&& final(self).finish_reason == old(self).finish_reason
                },
            },
    {
        match event {
            ChatEvent::TextDelta(text) => {
                let current = byte_len(&self.content);
                let additional = byte_len(&text);
                match Self::checked_size(
                    current,
                    additional,
                    self.limits.max_assistant_text_bytes,
                    "assistant text",
                ) {
                    Ok(_) => {},
                    Err(e) => return Err(e),
                }
                proof {
                    lemma_utf8_len_concat(self.content@, text@);
                }
                push_str(&mut self.content, text.as_str());
                Ok(())
            },
            ChatEvent::ToolCallDelta { index, id, name, arguments_delta } => {
                let (cur_id, cur_name, cur_args, exists) = match self.calls.get(&index) {
                    Some(call) => (byte_len(&call.id), byte_len(&call.name), byte_len(&call.arguments), true),
                    None => (0, 0, 0, false),
                };
                if !exists && self.calls.len() >= self.limits.max_tool_calls {
                    return Err(
                        Error::CompletionLimitExceeded {
                            resource: "tool call count",
                            limit: self.limits.max_tool_calls,
                        },
                    );
                }
                let add_id = match &id {
                    Some(s) => byte_len(s),
                    None => 0,
                };
                let add_name = match &name {
                    Some(s) => byte_len(s),
                    None => 0,
                };
                let add_args = match &arguments_delta {
                    Some(s) => byte_len(s),
                    None => 0,
                };
                match Self::checked_size(
                    cur_id,
                    add_id,
                    self.limits.max_tool_call_id_bytes,
                    "tool call id",
                ) {
                    Ok(_) => {},
                    Err(e) => return Err(e),
                }
                match Self::checked_size(
                    cur_name,
                    add_name,
                    self.limits.max_tool_name_bytes,
                    "tool name",
                ) {
                    Ok(_) => {},
                    Err(e) => return Err(e),
                }
                match Self::checked_size(
                    cur_args,
                    add_args,
                    self.limits.max_tool_argument_bytes,
                    "tool call arguments",
                ) {
                    Ok(_) => {},
                    Err(e) => return Err(e),
                }
                let total = match Self::checked_size(
                    self.total_argument_bytes,
                    add_args,
                    self.limits.max_total_tool_argument_bytes,
                    "total tool call arguments",
                ) {
                    Ok(t) => t,
                    Err(e) => return Err(e),
                };
                let ghost old_calls = self.calls@;
                let mut call = match self.calls.remove(&index) {
                    Some(call) => call,
                    None => PartialToolCall::new(),
                };
                let ghost before = call@;
                if let Some(id) = id {
                    push_str(&mut call.id, id.as_str());
                }
                if let Some(name) = name {
                    push_str(&mut call.name, name.as_str());
                }
                if let Some(arguments) = arguments_delta {
                    push_str(&mut call.arguments, arguments.as_str());
                }
                proof {
                    lemma_utf8_len_concat(before.id, fragment(id));
                    lemma_utf8_len_concat(before.name, fragment(name));
                    lemma_utf8_len_concat(before.arguments, fragment(arguments_delta));
                    assert(call@.id == before.id + fragment(id));
                    assert(call@.name == before.name + fragment(name));
                    assert(call@.arguments == before.arguments + fragment(arguments_delta));
                }
                self.calls.insert(index, call);
                self.total_argument_bytes = total;
                proof {
                    assert(self.calls@ == old_calls.insert(index, call));
                    assert(self.calls_view() =~= old(self).calls_view().insert(index, call@));
                    assert(old(self).calls_view().dom() =~= old_calls.dom());
                    Self::lemma_argument_total_insert(old(self).calls_view(), index, call@);
                    if !exists {
                        assert(self.calls@.dom() =~= old_calls.dom().insert(index));
                    } else {
                        assert(self.calls@.dom() =~= old_calls.dom());
                    }
                    if old(self).well_formed() {
                        assert forall|k: usize| #[trigger] self.calls@.contains_key(k) implies {
                            let c = self.calls@[k]@;
                            &&& utf8_len(c.id) <= self.limits.max_tool_call_id_bytes
                            &&& utf8_len(c.name) <= self.limits.max_tool_name_bytes
                            &&& utf8_len(c.arguments) <= self.limits.max_tool_argument_bytes
                        } by {
                            if k != index {
                                assert(old_calls.contains_key(k));
                            }
                        }
                    }
                }
                Ok(())
            },
            ChatEvent::Usage(usage) => {
                self.usage = Some(usage);
                Ok(())
            },
            ChatEvent::FinishReason(reason) => {
                self.finish_reason = Some(reason);
                Ok(())
            },
            ChatEvent::Done => Ok(()),
        }
    }
}

impl Default for ChatAccumulator {
    fn default() -> (accumulator: Self)
        ensures
            accumulator.limits == (CompletionLimits {
                max_assistant_text_bytes: 1048576usize,
                max_tool_calls: 128usize,
                max_tool_argument_bytes: 1048576usize,
                max_total_tool_argument_bytes: 4194304usize,
                max_tool_call_id_bytes: 4096usize,
                max_tool_name_bytes: 4096usize,
            }),
            accumulator.content@ == Seq::<char>::empty(),
            accumulator.calls@ == Map::<usize, PartialToolCall>::empty(),
            accumulator.total_argument_bytes == 0,
            accumulator.usage is None,
            accumulator.finish_reason is None,
            accumulator.well_formed(),
    {
        ChatAccumulator::new(CompletionLimits::default())
    }
}

/// The JSON value `serde_json::from_str` reads from a text, or `None` when
/// the text is not JSON.
pub uninterp spec fn json_value_of(text: Seq<char>) -> Option<Value>;

/// `serde_json::from_str` into a `serde_json::Value`.
#[verifier::external_body]
fn parse_json(text: &str) -> (r: Option<Value>)
    ensures
        r == json_value_of(text@),
{
    serde_json::from_str(text).ok()
}

/// An empty JSON object, `serde_json::Value::Object` of an empty map, which
/// is what `serde_json::from_str` reads from `{}`.
#[verifier::external_body]
fn empty_json_object() -> (v: Value)
    ensures
        json_value_of("{}"@) == Some(v),
{
    Value::Object(serde_json::Map::new())
}

/// The JSON text a call's arguments stand for: blank arguments mean an
/// empty object.
pub open spec fn arguments_text(arguments: Seq<char>) -> Seq<char> {
    if trim(arguments).len() == 0 {
        "{}"@
    } else {
        arguments
    }
}

/// Whether a received call cannot be completed, and why: `Some(true)` when
/// its id or function name is missing, `Some(false)` when its arguments are
/// not JSON.
pub open spec fn call_fault(call: PartialToolCallView) -> Option<bool> {
    if call.id.len() == 0 || call.name.len() == 0 {
        Some(true)
    } else if json_value_of(arguments_text(call.arguments)) is None {
        Some(false)
    } else {
        None
    }
}

/// The message reporting the fault of the call at stream index `index`.
pub open spec fn fault_message(index: usize, missing: bool) -> Seq<char> {
    if missing {
        "tool call at index "@ + decimal(index as nat) + " is missing its id or function name"@
    } else {
        "tool call at index "@ + decimal(index as nat) + " has invalid JSON arguments"@
    }
}

/// `order` lists exactly the keys, in increasing order.
pub open spec fn in_key_order(order: Seq<usize>, keys: Set<usize>) -> bool {
    &&& forall|k: usize| keys.contains(k) <==> order.contains(k)
    &&& forall|i: int, j: int| 0 <= i < j < order.len() ==> order[i] < order[j]
}

/// The call at position `f` of `order` is the first one with a fault.
pub open spec fn first_fault_at(
    order: Seq<usize>,
    calls: Map<usize, PartialToolCallView>,
    f: int,
) -> bool {
    &&& 0 <= f < order.len()
    &&& call_fault(calls[order[f]]) is Some
    &&& forall|i: int| 0 <= i < f ==> call_fault(#[trigger] calls[order[i]]) is None
}

/// The outcome of finishing: the first faulty call in stream-index order
/// is reported; otherwise every call becomes a completed tool call, in
/// stream-index order, and the text is kept when there is any.
pub open spec fn finish_outcome(
    order: Seq<usize>,
    calls: Map<usize, PartialToolCallView>,
    content: String,
    usage: Option<Usage>,
    finish_reason: Option<FinishReason>,
    r: Result<AssistantResponse, Error>,
) -> bool {
    if exists|f: int| first_fault_at(order, calls, f) {
        let f = choose|f: int| first_fault_at(order, calls, f);
        r matches Err(Error::Protocol(m)) && m@ == fault_message(
            order[f],
            call_fault(calls[order[f]])->0,
        )
    } else {
        r matches Ok(response) && {
            &&& response.tool_calls@.len() == order.len()
            &&& forall|i: int|
                0 <= i < order.len() ==> {
                    let call = calls[order[i]];
                    let done = #[trigger] response.tool_calls@[i];
                    &&& done.id@ == call.id
                    &&& done.name@ == call.name
                    &&& json_value_of(arguments_text(call.arguments)) == Some(done.arguments)
                }
            &&& response.content == if content@.len() > 0 {
                Some(content)
            } else {
                None
            }
            &&& response.usage == usage
            &&& response.finish_reason == finish_reason
        }
    }
}

/// `usize` keys are ordered as a `BTreeMap` expects.
proof fn lemma_usize_keys_ordered()
    ensures
        key_obeys_cmp_spec::<usize>(),
{
    broadcast use vstd::laws_cmp::group_laws_cmp;

    assert(vstd::laws_cmp::obeys_cmp::<usize>());
}

/// An increasing sequence of `usize` values is strictly ascending.
proof fn lemma_increasing_usize(keys: Seq<usize>)
    requires
        increasing_seq(keys),
    ensures
        forall|i: int, j: int| 0 <= i < j < keys.len() ==> keys[i] < keys[j],
{
    broadcast use vstd::laws_cmp::group_laws_cmp;

    assert(vstd::laws_cmp::obeys_cmp::<usize>());
    assert forall|i: int, j: int| 0 <= i < j < keys.len() implies keys[i] < keys[j] by {
        assert(vstd::std_specs::cmp::OrdSpec::cmp_spec(&keys[i], &keys[j]) is Less);
    }
}

/// The message reporting a faulty call.
fn fault_text(index: usize, missing: bool) -> (message: String)
    ensures
        message@ == fault_message(index, missing),
{
    let head = chars_of("tool call at index ");
    let tail = if missing {
        chars_of(" is missing its id or function name")
    } else {
        chars_of(" has invalid JSON arguments")
    };
    let ghost tail_text = if missing {
        " is missing its id or function name"@
    } else {
        " has invalid JSON arguments"@
    };
    let mut out: Vec<u8> = Vec::new();
    push_chars(&mut out, head.as_slice());
    push_decimal(&mut out, index);
    push_chars(&mut out, tail.as_slice());
    proof {
        let text = "tool call at index "@ + decimal(index as nat) + tail_text;
        lemma_encode_utf8_concat("tool call at index "@, decimal(index as nat));
        lemma_encode_utf8_concat("tool call at index "@ + decimal(index as nat), tail_text);
        assert(out@ =~= encode_utf8(text));
        assert(text == fault_message(index, missing));
    }
    text_of_encoding(out, Ghost(fault_message(index, missing)))
}

impl ChatAccumulator {
    /// Completes the response once the stream has ended: every tool call,
    /// in stream-index order, must have an id and a function name, and its
    /// arguments must be JSON (blank arguments mean an empty object).
    pub fn finish(self) -> (r: Result<AssistantResponse, Error>)
        ensures
            exists|order: Seq<usize>|
                #[trigger] in_key_order(order, self.calls@.dom()) && finish_outcome(
                    order,
                    self.calls_view(),
                    self.content,
                    self.usage,
                    self.finish_reason,
                    r,
                ),
    {
        let ghost calls_view = self.calls_view();
        let ghost dom = self.calls@.dom();
        let ChatAccumulator { content, calls, usage, finish_reason, .. } = self;
        let ghost entries = spec_btree_map_iter(&calls).remaining();
        let ghost order = entries.map_values(|kv: (&usize, &PartialToolCall)| *kv.0);
        proof {
            lemma_usize_keys_ordered();
        }
        let iter = calls.iter();
        proof {
            lemma_increasing_usize(order);
        }
        proof {
            assert forall|k: usize| dom.contains(k) <==> order.contains(k) by {
                if dom.contains(k) {
                    assert(entries.contains((&k, &calls@[k])));
                    let j = choose|j: int| 0 <= j < entries.len() && entries[j] == (&k, &calls@[k]);
                    assert(order[j] == k);
                }
                if order.contains(k) {
                    let j = choose|j: int| 0 <= j < order.len() && order[j] == k;
                    assert(calls@.contains_key(*entries[j].0));
                }
            }
            assert(in_key_order(order, dom));
        }
        let mut tool_calls: Vec<ToolCall> = Vec::new();
        for (index, call) in it: iter
            invariant
                it.seq() == entries,
                calls_view == self.calls_view(),
                dom == self.calls@.dom(),
                in_key_order(order, dom),
                dom == calls@.dom(),
                order.len() == entries.len(),
                calls_view == calls@.map_values(|call: PartialToolCall| call@),
                order == entries.map_values(|kv: (&usize, &PartialToolCall)| *kv.0),
                entries.len() == calls@.dom().len(),
                forall|i: int|
                    0 <= i < entries.len() ==> calls@.contains_key(*entries[i].0) && calls@[*entries[i].0]
                        == *entries[i].1,
                tool_calls@.len() == it.index(),
                forall|i: int|
                    0 <= i < it.index() ==> call_fault(#[trigger] calls_view[order[i]]) is None,
                forall|i: int|
                    0 <= i < it.index() ==> {
                        let call = calls_view[order[i]];
                        let done = #[trigger] tool_calls@[i];
                        &&& done.id@ == call.id
                        &&& done.name@ == call.name
                        &&& json_value_of(arguments_text(call.arguments)) == Some(done.arguments)
                    },
        {
            let ghost i = it.index() as int;
            assert(*index == order[i] && *call == calls@[order[i]]);
            assert(calls_view[order[i]] == call@);
            if call.id.as_str().is_empty() || call.name.as_str().is_empty() {
                proof {
                    assert(first_fault_at(order, calls_view, i));
                    let f = choose|f: int| first_fault_at(order, calls_view, f);
                    assert(f == i);
                }
                return Err(Error::Protocol(fault_text(*index, true)));
            }
            let chars = chars_of(call.arguments.as_str());
            let (start, end) = trim_range(&chars);
            let parsed = if start == end {
                Some(empty_json_object())
            } else {
                parse_json(call.arguments.as_str())
            };
            let arguments = match parsed {
                Some(value) => value,
                None => {
                    proof {
                        assert(first_fault_at(order, calls_view, i));
                        let f = choose|f: int| first_fault_at(order, calls_view, f);
                        assert(f == i);
                    }
                    return Err(Error::Protocol(fault_text(*index, false)));
                },
            };
            tool_calls.push(ToolCall { id: call.id.clone(), name: call.name.clone(), arguments });
        }
        proof {
            assert(!exists|f: int| first_fault_at(order, calls_view, f));
        }
        let response_content = if content.as_str().is_empty() {
            None
        } else {
            Some(content)
        };
        Ok(AssistantResponse { content: response_content, tool_calls, usage, finish_reason })
    }
}

} // verus!
