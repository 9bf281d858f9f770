//! Whether a recording can stand in for a capture device.
//!
//! A recording is checked before anything is read from it: one the decoder
//! could not use is refused with what is wrong with it, rather than decoded
//! into nothing.

use vstd::prelude::*;

use crate::text::{decimal_text, push_decimal};

verus! {

/// Why a recording was refused, given its channels, its rate, whether its
/// samples are integers and how many bits they have, and the lowest rate the
/// decoder takes; or `None` when it can be used.
pub open spec fn recording_refusal(
    channels: nat,
    sample_rate: nat,
    integer: bool,
    bits_per_sample: nat,
    minimum_rate: nat,
) -> Option<Seq<char>> {
    if channels == 0 {
        Some("the file has no channels"@)
    } else if sample_rate < minimum_rate {
        Some(decimal_text(sample_rate) + " Hz is below the "@ + decimal_text(minimum_rate)
            + " Hz the decoder needs"@)
    } else if integer && (bits_per_sample == 0 || bits_per_sample > 32) {
        Some("unsupported PCM depth: "@ + decimal_text(bits_per_sample) + " bits"@)
    } else {
        None
    }
}

/// Checks a recording's format: it has a channel, a rate the decoder takes,
/// and, for integer samples, a depth of one to thirty-two bits.
pub fn check_recording(
    channels: u16,
    sample_rate: u32,
    integer: bool,
    bits_per_sample: u16,
    minimum_rate: u32,
) -> (checked: Result<(), String>)
    ensures
        checked is Ok <==> recording_refusal(
            channels as nat,
            sample_rate as nat,
            integer,
            bits_per_sample as nat,
            minimum_rate as nat,
        ) is None,
        checked matches Err(message) ==> Some(message@) == recording_refusal(
            channels as nat,
            sample_rate as nat,
            integer,
            bits_per_sample as nat,
            minimum_rate as nat,
        ),
{
    if channels == 0 {
        return Err("the file has no channels".to_owned());
    }
    if sample_rate < minimum_rate {
        let mut message = String::new();
        push_decimal(&mut message, sample_rate);
        message.append(" Hz is below the ");
        push_decimal(&mut message, minimum_rate);
        message.append(" Hz the decoder needs");
        proof {
            assert(message@ =~= decimal_text(sample_rate as nat) + " Hz is below the "@
                + decimal_text(minimum_rate as nat) + " Hz the decoder needs"@);
        }
        return Err(message);
    }
    if integer && (bits_per_sample == 0 || bits_per_sample > 32) {
        let mut message = "unsupported PCM depth: ".to_owned();
        push_decimal(&mut message, bits_per_sample as u32);
        message.append(" bits");
        return Err(message);
    }
    Ok(())
}

} // verus!
