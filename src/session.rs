use vstd::prelude::*;
use crate::conversation::{views, Conversation, MessageView, Role};
use crate::request::{create_request_body, has_fixed_parameters, RequestBody, MAX_TOKENS};
use crate::text::{trim_text, trimmed};
use crate::tokens::{all_countable, countable, MAX_COUNTED_CHARS};
use crate::window::{request_window, window};

verus! {

/// `exit`, in any mix of ASCII upper and lower case.
pub open spec fn is_exit_word(s: Seq<char>) -> bool {
    &&& s.len() == 4
    &&& (s[0] == 'e' || s[0] == 'E')
    &&& (s[1] == 'x' || s[1] == 'X')
    &&& (s[2] == 'i' || s[2] == 'I')
    &&& (s[3] == 't' || s[3] == 'T')
}

/// Input that ends the session: `exit` in any case, whitespace around it
/// ignored.
pub open spec fn is_exit_input(input: Seq<char>) -> bool {
    is_exit_word(trimmed(input))
}

/// Whether an already trimmed text is the exit word.
pub fn matches_exit_word(text: &str) -> (r: bool)
    ensures
        r == is_exit_word(text@),
{
    if text.unicode_len() != 4 {
        return false;
    }
    let c0 = text.get_char(0);
    let c1 = text.get_char(1);
    let c2 = text.get_char(2);
    let c3 = text.get_char(3);
    (c0 == 'e' || c0 == 'E') && (c1 == 'x' || c1 == 'X') && (c2 == 'i' || c2 == 'I') && (c3
        == 't' || c3 == 'T')
}

/// Whether a line of input ends the session.
pub fn is_exit_command(input: &str) -> (r: bool)
    ensures
        r == is_exit_input(input@),
{
    let t = trim_text(input);
    matches_exit_word(t.as_str())
}

/// What the session does with one line of input.
pub enum TurnAction {
    /// End the session.
    Exit,
    /// Send this request.
    Send(RequestBody),
    /// A message, the input or one already held, is too long to count its
    /// tokens; nothing was appended.
    TooLong,
}

/// Decides one turn: the exit input ends the session and leaves the
/// conversation as it was; any other input, the empty one too, is appended
/// as the user's message, and the request for the window of the grown
/// conversation under `MAX_TOKENS` is returned. Where a message would be too
/// long to count, nothing is appended and `TooLong` is returned.
pub fn begin_turn(conversation: &mut Conversation, input: &str) -> (r: TurnAction)
    ensures
        is_exit_input(input@) ==> r is Exit && final(conversation)@ == old(conversation)@,
        !is_exit_input(input@) && !(countable(old(conversation)@) && input@.len()
            <= MAX_COUNTED_CHARS) ==> r is TooLong && final(conversation)@ == old(conversation)@,
        !is_exit_input(input@) && countable(old(conversation)@) && input@.len()
            <= MAX_COUNTED_CHARS ==> {
            &&& final(conversation)@ == old(conversation)@.push(
                MessageView { role: Role::User, content: input@ },
            )
            &&& r matches TurnAction::Send(b) && views(b.messages@) == window(
                final(conversation)@,
                MAX_TOKENS as nat,
            ) && has_fixed_parameters(b)
        },
{
    if is_exit_command(input) {
        return TurnAction::Exit;
    }
    if input.unicode_len() > MAX_COUNTED_CHARS || !all_countable(conversation.history()) {
        return TurnAction::TooLong;
    }
    conversation.add_message(Role::User, input);
    let truncated = request_window(conversation.history(), MAX_TOKENS);
    TurnAction::Send(create_request_body(truncated.as_slice()))
}

} // verus!
