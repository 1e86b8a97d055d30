//! Which microphone is opened, and what its samples look like on the wire.
use crate::bytes;
use crate::text;
use vstd::prelude::*;

verus! {

/// The sample rate that the recognizer wants.
pub const TARGET_RATE: u32 = 16_000;

/// What the name of the device must hold: what the user asks for, or the name
/// of the sound server that is preferred.
pub open spec fn wanted(device_name: Seq<char>) -> Seq<char> {
    if device_name.len() == 0 {
        "pipewire"@
    } else {
        device_name
    }
}

/// Whether the device has a name that holds what is wanted.
pub open spec fn suits(name: Option<String>, device_name: Seq<char>) -> bool {
    name matches Some(n) && text::occurs(wanted(device_name), n@)
}

/// The first device that suits, of those with the names; a device may fail to
/// tell its name.
pub fn pick_device(names: &Vec<Option<String>>, device_name: &str) -> (r: Option<usize>)
    ensures
        match r {
            Some(at) => at < names@.len() && suits(names@[at as int], device_name@) && forall|i: int|
                0 <= i < at ==> !suits(#[trigger] names@[i], device_name@),
            None => forall|i: int| 0 <= i < names@.len() ==> !suits(#[trigger] names@[i], device_name@),
        },
{
    let part: &str = if device_name.is_empty() {
        "pipewire"
    } else {
        device_name
    };
    let mut i: usize = 0;
    while i < names.len()
        invariant
            i <= names@.len(),
            part@ == wanted(device_name@),
            forall|k: int| 0 <= k < i ==> !suits(#[trigger] names@[k], device_name@),
        decreases names.len() - i,
    {
        match &names[i] {
            Some(name) => if text::contains(name.as_str(), part) {
                return Some(i);
            },
            None => {},
        }
        i += 1;
    }
    None
}

/// The bytes of the samples, one sample after the other.
pub open spec fn packed(samples: Seq<i16>) -> Seq<u8>
    decreases samples.len(),
{
    if samples.len() == 0 {
        Seq::empty()
    } else {
        packed(samples.drop_last()) + bytes::le16(samples.last())
    }
}

/// Each sample takes two bytes, least significant first, at twice its index.
pub proof fn packed_samples_stand_apart(samples: Seq<i16>)
    ensures
        packed(samples).len() == 2 * samples.len(),
        forall|i: int|
            0 <= i < samples.len() ==> packed(samples).subrange(2 * i, 2 * i + 2) == bytes::le16(
                #[trigger] samples[i],
            ),
    decreases samples.len(),
{
    if samples.len() > 0 {
        let init = samples.drop_last();
        packed_samples_stand_apart(init);
        assert forall|i: int| 0 <= i < samples.len() implies packed(samples).subrange(
            2 * i,
            2 * i + 2,
        ) == bytes::le16(#[trigger] samples[i]) by {
            if i < init.len() {
                assert(init[i] == samples[i]);
                assert(packed(samples).subrange(2 * i, 2 * i + 2) =~= packed(init).subrange(
                    2 * i,
                    2 * i + 2,
                ));
            } else {
                assert(packed(samples).subrange(2 * i, 2 * i + 2) =~= bytes::le16(samples[i]));
            }
        }
    }
}

/// Packs samples as little-endian 16-bit words.
pub fn pack_samples(samples: &[i16]) -> (r: Vec<u8>)
    ensures
        r@ == packed(samples@),
{
    let mut out: Vec<u8> = Vec::new();
    let mut i: usize = 0;
    assert(samples@.take(0) =~= Seq::empty());
    while i < samples.len()
        invariant
            i <= samples@.len(),
            out@ == packed(samples@.take(i as int)),
        decreases samples.len() - i,
    {
        bytes::push_le16(&mut out, samples[i]);
        assert(samples@.take(i + 1).drop_last() =~= samples@.take(i as int));
        i += 1;
    }
    assert(samples@.take(i as int) =~= samples@);
    out
}

/// A device suits where what the user asks for stands somewhere in its name, or,
/// where the user asks for nothing, where `pipewire` does. One that does not tell
/// its name does not suit.
pub proof fn devices_suit_by_part_of_their_name(name: String, device_name: Seq<char>)
    ensures
        !suits(None, device_name),
        suits(Some(name), Seq::empty()) <==> suits(Some(name), "pipewire"@),
        device_name.len() > 0 ==> (suits(Some(name), device_name) <==> exists|i: int|
            0 <= i <= name@.len() - device_name.len() && #[trigger] name@.subrange(
                i,
                i + device_name.len(),
            ) == device_name),
{
    reveal_strlit("pipewire");
    assert("pipewire"@.len() == 8);
}

/// Samples are packed one after the other, whatever stands around them.
pub proof fn samples_are_packed_in_order(a: Seq<i16>, b: Seq<i16>)
    ensures
        packed(a + b) == packed(a) + packed(b),
    decreases b.len(),
{
    if b.len() == 0 {
        assert(a + b =~= a);
        assert(packed(a) + packed(b) =~= packed(a));
    } else {
        samples_are_packed_in_order(a, b.drop_last());
        assert((a + b).drop_last() =~= a + b.drop_last());
        assert(packed(a + b) =~= packed(a) + packed(b));
    }
}

/// Every sample is read back from where it stands.
pub proof fn packed_samples_read_back(samples: Seq<i16>, i: int)
    requires
        0 <= i < samples.len(),
    ensures
        packed(samples).len() == 2 * samples.len(),
        packed(samples)[2 * i] + 0x100 * packed(samples)[2 * i + 1] == (samples[i] as int)
            % 0x1_0000,
{
    packed_samples_stand_apart(samples);
    let word = packed(samples).subrange(2 * i, 2 * i + 2);
    assert(word == bytes::le16(samples[i]));
    assert(word[0] == packed(samples)[2 * i] && word[1] == packed(samples)[2 * i + 1]);
    bytes::le16_starts_with_the_lower_byte(samples[i]);
}

} // verus!
