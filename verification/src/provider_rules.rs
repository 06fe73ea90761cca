//! Laws on the formats and codecs of the library, and on numbers in messages.

use vstd::prelude::*;
use crate::builtin::{BuiltinCodecProviders, BuiltinFormatProviders};
use crate::chain::{StaticCodecProviders, StaticFormatProviders};
use crate::entry::ArchiveMetadata;
use crate::error::ErrorKind;
use crate::filtered::detect::FilterId;
use crate::limits::Limits;
use crate::provider::{
    combined, frame_error, metadata_refusal, probe_error, FormatId, ProbeResult,
    ProviderCapability,
};
use crate::registry::registry_frame_error;
use crate::text::decimal_digits;

verus! {

/// A format of the library is decoded from a sequential input exactly if it tells that
/// it needs no seeking; it is encoded to a sequential output if it needs none either,
/// or is ZIP; and one that tells that it cannot be encoded never is.
pub proof fn law_capabilities_are_kept(providers: BuiltinFormatProviders, format: FormatId)
    ensures
        providers.known_format(format) matches ProviderCapability::Available(abilities) && {
            &&& abilities.decode
            &&& providers.decoder_refusal(format) is None <==> !abilities.seek
            &&& providers.encoder_refusal(format) is None <==> !abilities.seek || format
                == FormatId::Zip
            &&& !abilities.encode ==> providers.encoder_refusal(format) is Some
            &&& abilities.encode <==> format != FormatId::Cab && format != FormatId::Xar
            &&& abilities.seek <==> format != FormatId::Tar && format != FormatId::Cpio && format
                != FormatId::Ar
        },
        providers.chosen_format(format) is Ok,
{
}

/// A codec of the library is known exactly if it is chosen, and then encodes too; raw
/// deflate, compress and lzip have none.
pub proof fn law_known_codecs_are_chosen(providers: BuiltinCodecProviders, filter: FilterId)
    ensures
        providers.known_codec(filter) is Available <==> providers.chosen_codec(filter) is Ok,
        providers.chosen_codec(filter) matches Ok(chosen) ==> chosen == filter,
        providers.known_codec(filter) is Available <==> providers.encoder_refusal(filter) is None,
        providers.known_codec(filter) is Available <==> !(filter is Deflate || filter is Compress
            || filter is Lzip),
        providers.known_codec(filter) matches ProviderCapability::Available(abilities)
            ==> abilities.decode && abilities.encode,
{
}

/// A frame is handed on exactly if it is no longer than what may be in flight, by a
/// provider of the library and by a registered one alike.
pub proof fn law_frames_stay_in_flight(length: nat, limits: Limits)
    ensures
        frame_error(length, limits) is None <==> (limits.in_flight_bytes matches Some(limit)
            ==> length <= limit),
        registry_frame_error(length, limits) is None <==> (limits.in_flight_bytes matches Some(
            limit,
        ) ==> length <= limit),
        frame_error(length, limits) matches Some(error) ==> error.kind == ErrorKind::Limit,
        registry_frame_error(length, limits) matches Some(error) ==> error.kind
            == ErrorKind::Limit,
{
}

/// A probe is refused exactly if it asks for no more than it was given.
pub proof fn law_probes_ask_for_more<T>(result: ProbeResult<T>, length: nat, provider: Seq<char>)
    ensures
        probe_error(result, length, provider) is Some <==> (result matches ProbeResult::NeedMore {
            minimum,
        } && minimum <= length),
{
}

/// Two probes disagree only if both recognize something, and not the same; what one of
/// them recognizes is never lost to a tail that recognizes nothing, and more is asked
/// for as long as the head asks for it.
pub proof fn law_joined_probes<I, S>(
    head: ProbeResult<(I, S)>,
    tail: ProbeResult<(I, S)>,
    kind: Seq<char>,
)
    ensures
        combined(head, tail, kind) is Err <==> head is Match && tail is Match
            && head->Match_0.0 != tail->Match_0.0,
        combined(head, tail, kind) matches Ok(probe) ==> {
            &&& head is Match ==> probe == head
            &&& head is NoMatch ==> probe == tail
            &&& head matches ProbeResult::NeedMore { minimum: left } ==> (probe matches
                ProbeResult::NeedMore { minimum } && minimum >= left && (tail matches
                ProbeResult::NeedMore { minimum: right } ==> minimum >= right && (minimum == left
                || minimum == right)))
        },
{
}

/// A format without metadata of its own takes an archive that has none, and no other.
pub proof fn law_archive_metadata_is_not_dropped(metadata: ArchiveMetadata)
    ensures
        metadata_refusal(metadata) is None <==> metadata.volume_name is None && metadata.comment
            is None && metadata.extensions@.len() == 0,
{
}

/// The number that decimal digits stand for, the highest first.
pub open spec fn digits_value(digits: Seq<char>) -> int
    decreases digits.len(),
{
    if digits.len() == 0 {
        0
    } else {
        10 * digits_value(digits.drop_last()) + (digits.last() as int - '0' as int)
    }
}

/// A number in a message is the number itself, in digits only and without zeros in
/// front.
pub proof fn law_digits_give_the_number_back(number: nat)
    ensures
        digits_value(decimal_digits(number)) == number,
        decimal_digits(number).len() > 0,
        forall|i: int|
            0 <= i < decimal_digits(number).len() ==> '0' <= #[trigger] decimal_digits(number)[i]
                <= '9',
        number > 0 ==> decimal_digits(number)[0] != '0',
    decreases number,
{
    let digits = decimal_digits(number);
    if number < 10 {
        assert(digits.drop_last() =~= Seq::<char>::empty());
        reveal_with_fuel(digits_value, 2);
        assert(digits.last() as int == number + 48);
    } else {
        law_digits_give_the_number_back(number / 10);
        assert(digits.drop_last() =~= decimal_digits(number / 10));
        assert(digits.last() as int == number % 10 + 48);
        assert forall|i: int| 0 <= i < digits.len() implies '0' <= #[trigger] digits[i] <= '9' by {
            if i < digits.len() - 1 {
                assert(digits[i] == decimal_digits(number / 10)[i]);
            }
        }
        assert(digits[0] == decimal_digits(number / 10)[0]);
    }
}

} // verus!
