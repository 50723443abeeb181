//! The per-frame message record of a trace.
use vstd::prelude::*;

verus! {

/// Metadata and payload carried by one frame of a trace.
#[derive(Debug, Clone, Default, PartialEq)]
pub struct MessageLog {
    /// Logger channel index (typically 1-based).
    pub channel: u8,
    /// Payload length token.
    pub byte_length: u16,
    /// `"CAN"` or `"CAN FD"` depending on payload size.
    pub protocol: String,
    /// Identifier token as seen in the log (may include format suffixes).
    pub id: String,
    /// Empty if unknown (missing database).
    pub name: String,
    /// Empty if unknown (missing database).
    pub sender_node: String,
    /// Payload bytes as hex pairs separated by spaces.
    pub data: String,
    /// Optional comment (empty if unknown).
    pub comment: String,
    /// Indices of the decoded signals of this message.
    pub signals: Vec<usize>,
}

/// Abstract message record.
pub struct MessageLogView {
    pub channel: u8,
    pub byte_length: u16,
    pub protocol: Seq<char>,
    pub id: Seq<char>,
    pub name: Seq<char>,
    pub sender_node: Seq<char>,
    pub data: Seq<char>,
    pub comment: Seq<char>,
    pub signals: Seq<usize>,
}

impl View for MessageLog {
    type V = MessageLogView;

    open spec fn view(&self) -> MessageLogView {
        MessageLogView {
            channel: self.channel,
            byte_length: self.byte_length,
            protocol: self.protocol@,
            id: self.id@,
            name: self.name@,
            sender_node: self.sender_node@,
            data: self.data@,
            comment: self.comment@,
            signals: self.signals@,
        }
    }
}

/// The record every field of which is empty or zero.
pub open spec fn empty_message_log() -> MessageLogView {
    MessageLogView {
        channel: 0,
        byte_length: 0,
        protocol: Seq::empty(),
        id: Seq::empty(),
        name: Seq::empty(),
        sender_node: Seq::empty(),
        data: Seq::empty(),
        comment: Seq::empty(),
        signals: Seq::empty(),
    }
}

impl MessageLog {
    /// Resets all fields to their default values.
    pub fn clear(&mut self)
        ensures
            final(self)@ == empty_message_log(),
    {
        self.channel = 0;
        self.byte_length = 0;
        self.protocol = String::new();
        self.id = String::new();
        self.name = String::new();
        self.sender_node = String::new();
        self.data = String::new();
        self.comment = String::new();
        self.signals = Vec::new();
    }
}

/// The indices of `idx` below `n`, in their order.
pub open spec fn indices_below(idx: Seq<usize>, n: nat) -> Seq<usize>
    decreases idx.len(),
{
    if idx.len() == 0 {
        Seq::empty()
    } else {
        let r = indices_below(idx.drop_last(), n);
        if idx.last() < n {
            r.push(idx.last())
        } else {
            r
        }
    }
}

/// The signal indices of the message record at `msg_idx` that name one of
/// `signal_count` signals, in the record's order; none when there is no such
/// record.
pub fn resolved_signal_indices(messages: &Vec<MessageLog>, msg_idx: usize, signal_count: usize) -> (r: Vec<usize>)
    ensures
        r@ == (if msg_idx < messages.len() {
            indices_below(messages@[msg_idx as int].signals@, signal_count as nat)
        } else {
            Seq::empty()
        }),
{
    let mut r: Vec<usize> = Vec::new();
    if msg_idx >= messages.len() {
        return r;
    }
    let idx = &messages[msg_idx].signals;
    let mut i: usize = 0;
    while i < idx.len()
        invariant
            i <= idx.len(),
            r@ == indices_below(idx@.take(i as int), signal_count as nat),
        decreases idx.len() - i,
    {
        assert(idx@.take(i + 1).drop_last() =~= idx@.take(i as int));
        if idx[i] < signal_count {
            r.push(idx[i]);
        }
        i = i + 1;
    }
    assert(idx@.take(idx.len() as int) =~= idx@);
    r
}

} // verus!
