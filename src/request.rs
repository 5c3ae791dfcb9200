use vstd::prelude::*;
use crate::conversation::{Message, views};
use crate::window::copy_suffix;

verus! {

/// The token budget of a request, and its cap on generated tokens.
pub const MAX_TOKENS: usize = 8000;

/// The model that answers.
pub const MODEL: &'static str = "llama3-70b-8192";

/// Sampling temperature, in hundredths.
pub const TEMPERATURE_HUNDREDTHS: u32 = 70;

/// Nucleus-sampling threshold, in hundredths.
pub const TOP_P_HUNDREDTHS: u32 = 90;

/// The payload of one completion request.
pub struct RequestBody {
    pub messages: Vec<Message>,
    pub model: String,
    pub temperature_hundredths: u32,
    pub max_tokens: usize,
    pub top_p_hundredths: u32,
    pub stream: bool,
    pub stop: Option<String>,
}

/// What every request carries besides its messages.
pub open spec fn has_fixed_parameters(b: RequestBody) -> bool {
    &&& b.model@ == MODEL@
    &&& b.temperature_hundredths == TEMPERATURE_HUNDREDTHS
    &&& b.max_tokens == MAX_TOKENS
    &&& b.top_p_hundredths == TOP_P_HUNDREDTHS
    &&& b.stream
    &&& b.stop is None
}

/// The request for a window of messages, with the fixed generation
/// parameters and streaming on.
pub fn create_request_body(truncated_history: &[Message]) -> (r: RequestBody)
    ensures
        views(r.messages@) == views(truncated_history@),
        has_fixed_parameters(r),
{
    let messages = copy_suffix(truncated_history, 0);
    proof {
        assert(views(truncated_history@).subrange(0, truncated_history@.len() as int) =~= views(
            truncated_history@,
        ));
    }
    RequestBody {
        messages,
        model: MODEL.to_owned(),
        temperature_hundredths: TEMPERATURE_HUNDREDTHS,
        max_tokens: MAX_TOKENS,
        top_p_hundredths: TOP_P_HUNDREDTHS,
        stream: true,
        stop: None,
    }
}

} // verus!
