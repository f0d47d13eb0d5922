//! Status messages of the controller's user interface: a queue that shows the most important
//! message first.

use vstd::prelude::*;

verus! {

/// A message for the status bar, most important first: an error (with details), a warning,
/// an information.
#[derive(Clone, Debug, PartialEq, Eq)]
pub enum MessageMessage {
    Error(String, String),
    Warning(String),
    Info(String),
}

/// What the message row reacts to.
pub enum MessageRowMessage {
    ShowStatusMessage(MessageMessage),
    ClearStatusMessage,
}

/// Byte strings in lexicographic order, as strings are ordered.
pub open spec fn bytes_lt(a: Seq<u8>, b: Seq<u8>) -> bool
    decreases a.len(),
{
    if a.len() == 0 {
        b.len() > 0
    } else if b.len() == 0 {
        false
    } else if a[0] != b[0] {
        a[0] < b[0]
    } else {
        bytes_lt(a.drop_first(), b.drop_first())
    }
}

pub open spec fn text_bytes(s: String) -> Seq<u8> {
    vstd::utf8::encode_utf8(s@)
}

pub open spec fn rank(m: MessageMessage) -> int {
    match m {
        MessageMessage::Error(_, _) => 2,
        MessageMessage::Warning(_) => 1,
        MessageMessage::Info(_) => 0,
    }
}

pub open spec fn first_text(m: MessageMessage) -> Seq<u8> {
    match m {
        MessageMessage::Error(t, _) => text_bytes(t),
        MessageMessage::Warning(t) => text_bytes(t),
        MessageMessage::Info(t) => text_bytes(t),
    }
}

pub open spec fn second_text(m: MessageMessage) -> Seq<u8> {
    match m {
        MessageMessage::Error(_, d) => text_bytes(d),
        _ => Seq::empty(),
    }
}

/// Messages ordered by importance (error above warning above information), then by their
/// texts.
pub open spec fn msg_lt(a: MessageMessage, b: MessageMessage) -> bool {
    ||| rank(a) < rank(b)
    ||| rank(a) == rank(b) && bytes_lt(first_text(a), first_text(b))
    ||| rank(a) == rank(b) && first_text(a) == first_text(b) && bytes_lt(second_text(a), second_text(b))
}

pub proof fn lemma_bytes_lt_irreflexive(a: Seq<u8>)
    ensures
        !bytes_lt(a, a),
    decreases a.len(),
{
    if a.len() > 0 {
        lemma_bytes_lt_irreflexive(a.drop_first());
    }
}

pub proof fn lemma_bytes_lt_transitive(a: Seq<u8>, b: Seq<u8>, c: Seq<u8>)
    requires
        bytes_lt(a, b),
        bytes_lt(b, c),
    ensures
        bytes_lt(a, c),
    decreases a.len(),
{
    if a.len() > 0 && b.len() > 0 && c.len() > 0 && a[0] == b[0] && b[0] == c[0] {
        lemma_bytes_lt_transitive(a.drop_first(), b.drop_first(), c.drop_first());
    }
}

pub proof fn lemma_msg_lt_order(a: MessageMessage, b: MessageMessage, c: MessageMessage)
    ensures
        !msg_lt(a, a),
        msg_lt(a, b) && msg_lt(b, c) ==> msg_lt(a, c),
{
    lemma_bytes_lt_irreflexive(first_text(a));
    lemma_bytes_lt_irreflexive(second_text(a));
    if msg_lt(a, b) && msg_lt(b, c) && rank(a) == rank(c) {
        if bytes_lt(first_text(a), first_text(b)) && bytes_lt(first_text(b), first_text(c)) {
            lemma_bytes_lt_transitive(first_text(a), first_text(b), first_text(c));
        }
        if bytes_lt(second_text(a), second_text(b)) && bytes_lt(second_text(b), second_text(c)) {
            lemma_bytes_lt_transitive(second_text(a), second_text(b), second_text(c));
        }
    }
}

/// Never a later message below an earlier one.
pub open spec fn sorted_messages(q: Seq<MessageMessage>) -> bool {
    forall|i: int, j: int| 0 <= i < j < q.len() ==> !msg_lt(#[trigger] q[j], #[trigger] q[i])
}

fn less_bytes(a: &[u8], b: &[u8]) -> (r: bool)
    ensures
        r == bytes_lt(a@, b@),
{
    let mut i: usize = 0;
    assert(a@.skip(0) =~= a@ && b@.skip(0) =~= b@);
    while i < a.len() && i < b.len() && a[i] == b[i]
        invariant
            i <= a@.len(),
            i <= b@.len(),
            bytes_lt(a@, b@) == bytes_lt(a@.skip(i as int), b@.skip(i as int)),
        decreases a@.len() - i,
    {
        proof {
            assert(a@.skip(i as int).drop_first() =~= a@.skip(i + 1));
            assert(b@.skip(i as int).drop_first() =~= b@.skip(i + 1));
        }
        i = i + 1;
    }
    if i == a.len() {
        i < b.len()
    } else if i == b.len() {
        false
    } else {
        a[i] < b[i]
    }
}

fn texts(m: &MessageMessage) -> (r: (&[u8], &[u8]))
    ensures
        r.0@ == first_text(*m),
        r.1@ == second_text(*m),
{
    match m {
        MessageMessage::Error(t, d) => (t.as_str().as_bytes(), d.as_str().as_bytes()),
        MessageMessage::Warning(t) => (t.as_str().as_bytes(), &[]),
        MessageMessage::Info(t) => (t.as_str().as_bytes(), &[]),
    }
}

fn rank_of(m: &MessageMessage) -> (r: u8)
    ensures
        r == rank(*m),
{
    match m {
        MessageMessage::Error(_, _) => 2,
        MessageMessage::Warning(_) => 1,
        MessageMessage::Info(_) => 0,
    }
}

/// Is `a` below `b` in importance?
pub fn less_important(a: &MessageMessage, b: &MessageMessage) -> (r: bool)
    ensures
        r == msg_lt(*a, *b),
{
    let ra = rank_of(a);
    let rb = rank_of(b);
    if ra != rb {
        return ra < rb;
    }
    let (ta, da) = texts(a);
    let (tb, db) = texts(b);
    if less_bytes(ta, tb) {
        return true;
    }
    if less_bytes(tb, ta) {
        return false;
    }
    proof {
        lemma_bytes_lt_total(ta@, tb@);
    }
    less_bytes(da, db)
}

proof fn lemma_bytes_lt_total(a: Seq<u8>, b: Seq<u8>)
    ensures
        a == b || bytes_lt(a, b) || bytes_lt(b, a),
    decreases a.len(),
{
    if a.len() > 0 && b.len() > 0 && a[0] == b[0] {
        lemma_bytes_lt_total(a.drop_first(), b.drop_first());
        if a.drop_first() == b.drop_first() {
            assert(a =~= seq![a[0]] + a.drop_first());
            assert(b =~= seq![b[0]] + b.drop_first());
        }
    } else if a.len() == 0 && b.len() == 0 {
        assert(a =~= b);
    }
}

/// The message shown, and the messages waiting, in increasing importance.
pub struct MessageQueue {
    pub queue: Vec<MessageMessage>,
    pub current_message: Option<MessageMessage>,
}

impl Default for MessageQueue {
    fn default() -> (r: MessageQueue)
        ensures
            r.queue@.len() == 0,
            r.current_message is None,
    {
        MessageQueue { queue: Vec::new(), current_message: None }
    }
}

impl MessageQueue {
    pub open spec fn wf(&self) -> bool {
        sorted_messages(self.queue@)
    }

    /// Show `message` if none is shown, else queue it by importance.
    pub fn add_message(&mut self, message: MessageMessage)
        requires
            old(self).wf(),
        ensures
            final(self).wf(),
            old(self).current_message is None ==> final(self).current_message == Some(message)
                && final(self).queue@ == old(self).queue@,
            old(self).current_message is Some ==> final(self).current_message == old(self).current_message && final(self).queue@.to_multiset() == old(self).queue@.to_multiset().insert(
                message,
            ),
    {
        if self.current_message.is_none() {
            self.current_message = Some(message);
            return;
        }
        let ghost q = self.queue@;
        let mut p: usize = 0;
        while p < self.queue.len() && !less_important(&message, &self.queue[p])
            invariant
                self.queue@ == q,
                p <= q.len(),
                forall|j: int| 0 <= j < p ==> !msg_lt(message, #[trigger] q[j]),
            decreases q.len() - p,
        {
            p = p + 1;
        }
        self.queue.insert(p, message);
        proof {
            let t = self.queue@;
            assert(t == q.insert(p as int, message));
            assert forall|i: int, j: int| 0 <= i < j < t.len() implies !msg_lt(#[trigger] t[j], #[trigger] t[i]) by {
                if j < p {
                    assert(t[i] == q[i] && t[j] == q[j]);
                } else if j == p {
                    assert(t[i] == q[i]);
                } else if i < p {
                    assert(t[i] == q[i] && t[j] == q[j - 1]);
                    if msg_lt(q[j - 1], q[i]) {
                    }
                } else if i == p {
                    assert(t[j] == q[j - 1]);
                    assert(msg_lt(message, q[p as int]));
                    lemma_msg_lt_order(q[j - 1], message, q[p as int]);
                    lemma_msg_lt_order(q[p as int], message, q[p as int]);
                } else {
                    assert(t[i] == q[i - 1] && t[j] == q[j - 1]);
                }
            }
            vstd::seq_lib::to_multiset_insert(q, p as int, message);
        }
    }

    /// Stop showing the current message; show the most important waiting one, if any.
    pub fn clear_message(&mut self)
        requires
            old(self).wf(),
        ensures
            final(self).wf(),
            old(self).queue@.len() == 0 ==> final(self).current_message is None
                && final(self).queue@.len() == 0,
            old(self).queue@.len() > 0 ==> {
                &&& final(self).current_message == Some(old(self).queue@.last())
                &&& final(self).queue@ == old(self).queue@.drop_last()
                &&& forall|j: int|
                    0 <= j < old(self).queue@.len() ==> !msg_lt(
                        old(self).queue@.last(),
                        #[trigger] old(self).queue@[j],
                    )
            },
    {
        let ghost q = self.queue@;
        if self.queue.len() == 0 {
            self.current_message = None;
        } else {
            self.current_message = self.queue.pop();
            proof {
                assert forall|j: int| 0 <= j < q.len() implies !msg_lt(q.last(), #[trigger] q[j]) by {
                    if j < q.len() - 1 {
                        assert(!msg_lt(q[q.len() - 1], q[j]));
                    } else {
                        lemma_msg_lt_order(q[j], q[j], q[j]);
                    }
                }
            }
        }
    }

    /// Is an information message shown?
    pub fn showing_info_message(&self) -> (r: bool)
        ensures
            r == (self.current_message matches Some(MessageMessage::Info(_))),
    {
        matches!(self.current_message, Some(MessageMessage::Info(_)))
    }
}

/// `m` is shown on `new` if `old` showed nothing, and queued otherwise.
pub open spec fn shows_or_queues(old: MessageQueue, new: MessageQueue, m: MessageMessage) -> bool {
    &&& old.current_message is None ==> new.current_message == Some(m) && new.queue@ == old.queue@
    &&& old.current_message is Some ==> new.current_message == old.current_message
        && new.queue@.to_multiset() == old.queue@.to_multiset().insert(m)
}

/// An information message with text `text` is shown or queued on `new`, starting from `old`.
pub open spec fn info_added(old: MessageQueue, new: MessageQueue, text: Seq<char>) -> bool {
    exists|m: MessageMessage| m is Info && m->Info_0@ == text && #[trigger] shows_or_queues(old, new, m)
}

/// The row of the window that shows status messages.
pub struct MessageRow {
    pub message_queue: MessageQueue,
}

impl MessageRow {
    /// A row showing nothing.
    pub fn new() -> (r: MessageRow)
        ensures
            r.message_queue.wf(),
            r.message_queue.queue@.len() == 0,
            r.message_queue.current_message is None,
    {
        MessageRow { message_queue: MessageQueue { queue: Vec::new(), current_message: None } }
    }

    /// Show or queue a message.
    pub fn add_message(&mut self, msg: MessageMessage)
        requires
            old(self).message_queue.wf(),
        ensures
            final(self).message_queue.wf(),
            old(self).message_queue.current_message is None ==> final(self).message_queue.current_message
                == Some(msg) && final(self).message_queue.queue@ == old(self).message_queue.queue@,
            old(self).message_queue.current_message is Some ==> final(self).message_queue.current_message
                == old(self).message_queue.current_message
                && final(self).message_queue.queue@.to_multiset() == old(self).message_queue.queue@.to_multiset().insert(msg),
    {
        self.message_queue.add_message(msg);
    }

    /// Show a message, or clear the one shown.
    pub fn update(&mut self, message: MessageRowMessage)
        requires
            old(self).message_queue.wf(),
        ensures
            final(self).message_queue.wf(),
    {
        match message {
            MessageRowMessage::ShowStatusMessage(msg) => self.add_message(msg),
            MessageRowMessage::ClearStatusMessage => self.message_queue.clear_message(),
        }
    }
}

/// The information row at the bottom of the window, with its message row.
pub struct InfoRow {
    pub message_row: MessageRow,
}

impl InfoRow {
    /// A row showing no message.
    pub fn new() -> (r: InfoRow)
        ensures
            r.message_row.message_queue.wf(),
            r.message_row.message_queue.queue@.len() == 0,
            r.message_row.message_queue.current_message is None,
    {
        InfoRow { message_row: MessageRow::new() }
    }

    /// Show or queue a message.
    pub fn add_info_message(&mut self, msg: MessageMessage)
        requires
            old(self).message_row.message_queue.wf(),
        ensures
            final(self).message_row.message_queue.wf(),
            shows_or_queues(old(self).message_row.message_queue, final(self).message_row.message_queue, msg),
    {
        self.message_row.add_message(msg);
    }

    /// Show a message, or clear the one shown.
    pub fn update(&mut self, message: MessageRowMessage)
        requires
            old(self).message_row.message_queue.wf(),
        ensures
            final(self).message_row.message_queue.wf(),
    {
        self.message_row.update(message);
    }
}

/// A message of the older status bar: an error with details and whether it must be
/// dismissed, a warning, or an information.
#[derive(Clone, Debug)]
pub enum StatusMessage {
    Error(String, String, bool),
    Warning(String),
    Info(String),
}

impl StatusMessage {
    /// The short text of the message.
    pub fn text(&self) -> (r: String)
        ensures
            r@ == match self {
                StatusMessage::Error(msg, _, _) => msg@,
                StatusMessage::Warning(msg) => msg@,
                StatusMessage::Info(msg) => msg@,
            },
    {
        match self {
            StatusMessage::Error(msg, _, _) => msg.clone(),
            StatusMessage::Warning(msg) => msg.clone(),
            StatusMessage::Info(msg) => msg.clone(),
        }
    }
}

/// Status messages, the latest shown.
pub struct StatusMessageQueue {
    messages: Vec<StatusMessage>,
}

impl View for StatusMessageQueue {
    type V = Seq<StatusMessage>;

    closed spec fn view(&self) -> Seq<StatusMessage> {
        self.messages@
    }
}

impl Default for StatusMessageQueue {
    fn default() -> (r: StatusMessageQueue)
        ensures
            r@.len() == 0,
    {
        StatusMessageQueue { messages: Vec::new() }
    }
}

impl StatusMessageQueue {
    /// Add a message; it is the one shown.
    pub fn add(&mut self, message: StatusMessage)
        ensures
            final(self)@ == old(self)@.push(message),
    {
        self.messages.push(message)
    }

    /// The message shown: the latest added.
    pub fn peek(&self) -> (r: Option<&StatusMessage>)
        ensures
            match r {
                Some(m) => self@.len() > 0 && *m == self@.last(),
                None => self@.len() == 0,
            },
    {
        if self.messages.len() == 0 {
            None
        } else {
            Some(&self.messages[self.messages.len() - 1])
        }
    }
}

} // verus!
