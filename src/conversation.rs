use vstd::prelude::*;

verus! {

/// Who spoke a message.
#[derive(Clone, Copy, Debug, PartialEq, Eq, Structural)]
pub enum Role {
    User,
    Assistant,
}

impl Role {
    /// The name of the role on the wire.
    pub open spec fn spec_name(self) -> Seq<char> {
        match self {
            Role::User => seq!['u', 's', 'e', 'r'],
            Role::Assistant => seq!['a', 's', 's', 'i', 's', 't', 'a', 'n', 't'],
        }
    }

    pub fn name(&self) -> (r: String)
        ensures
            r@ == self.spec_name(),
    {
        match self {
            Role::User => {
                let r = String::from_str("user");
                proof {
                    reveal_strlit("user");
                }
                r
            },
            Role::Assistant => {
                let r = String::from_str("assistant");
                proof {
                    reveal_strlit("assistant");
                }
                r
            },
        }
    }
}

/// The mathematical value of a message: its role and its text.
pub ghost struct MessageView {
    pub role: Role,
    pub content: Seq<char>,
}

/// The history after appending each message of `calls` to `start`, in order.
pub open spec fn after_appends(start: Seq<MessageView>, calls: Seq<MessageView>) -> Seq<MessageView>
    decreases calls.len(),
{
    if calls.len() == 0 {
        start
    } else {
        after_appends(start, calls.drop_last()).push(calls.last())
    }
}

/// Appending N messages to an empty history, one call after another, gives a
/// history of length N that holds each call's role and text in call order.
pub proof fn lemma_appends_in_call_order(calls: Seq<MessageView>)
    ensures
        after_appends(Seq::empty(), calls).len() == calls.len(),
        forall|i: int| 0 <= i < calls.len() ==> #[trigger] after_appends(Seq::empty(), calls)[i]
            == calls[i],
    decreases calls.len(),
{
    if calls.len() > 0 {
        lemma_appends_in_call_order(calls.drop_last());
        assert(after_appends(Seq::empty(), calls) =~= calls);
    }
}

/// One role-tagged message of a dialogue.
#[derive(Debug)]
pub struct Message {
    pub role: Role,
    pub content: String,
}

impl View for Message {
    type V = MessageView;

    open spec fn view(&self) -> MessageView {
        MessageView { role: self.role, content: self.content@ }
    }
}

/// The views of a sequence of messages.
pub open spec fn views(s: Seq<Message>) -> Seq<MessageView> {
    s.map_values(|m: Message| m@)
}

impl Message {
    pub fn new(role: Role, content: &str) -> (r: Message)
        ensures
            r@ == (MessageView { role, content: content@ }),
    {
        Message { role, content: content.to_owned() }
    }

    /// A copy of this message with the same role and text.
    pub fn duplicate(&self) -> (r: Message)
        ensures
            r@ == self@,
    {
        Message { role: self.role, content: self.content.clone() }
    }
}

/// The dialogue transcript: messages in the order they were appended.
pub struct Conversation {
    history: Vec<Message>,
}

impl View for Conversation {
    type V = Seq<MessageView>;

    closed spec fn view(&self) -> Seq<MessageView> {
        views(self.history@)
    }
}

impl Conversation {
    pub fn new() -> (r: Conversation)
        ensures
            r@ == Seq::<MessageView>::empty(),
    {
        let r = Conversation { history: Vec::new() };
        proof {
            assert(views(r.history@) =~= Seq::<MessageView>::empty());
        }
        r
    }

    /// Appends a message at the end; everything before it is kept as it was.
    pub fn add_message(&mut self, role: Role, content: &str)
        ensures
            final(self)@ == old(self)@.push(MessageView { role, content: content@ }),
    {
        let m = Message::new(role, content);
        self.history.push(m);
        proof {
            assert(views(self.history@) =~= views(old(self).history@).push(m@));
        }
    }

    /// The full history, oldest first.
    pub fn history(&self) -> (r: &[Message])
        ensures
            views(r@) == self@,
    {
        self.history.as_slice()
    }
}

} // verus!
