//! The shape of the samples the audio engine hands the loopback capture.
//!
//! The mix format comes as a `WAVEFORMATEX` header (and, for the extensible tag, the
//! sub-format GUID right after it). Reading those fields out of the engine's memory is
//! the caller's; which formats the analysis can decode, and how many bytes a packet of
//! frames takes, is decided here.

use vstd::prelude::*;

verus! {

/// Integer PCM.
pub const WAVE_FORMAT_PCM: u16 = 1;
/// 32-bit float samples.
pub const WAVE_FORMAT_IEEE_FLOAT: u16 = 3;
/// A sub-format GUID after the header says what the samples are.
pub const WAVE_FORMAT_EXTENSIBLE: u16 = 0xFFFE;

/// `KSDATAFORMAT_SUBTYPE_IEEE_FLOAT`, as the bytes of the GUID.
pub open spec fn float_subtype(s: Seq<u8>) -> bool {
    &&& s.len() == 16
    &&& s[0] == 0x03 && s[1] == 0x00 && s[2] == 0x00 && s[3] == 0x00
    &&& s[4] == 0x00 && s[5] == 0x00 && s[6] == 0x10 && s[7] == 0x00
    &&& s[8] == 0x80 && s[9] == 0x00 && s[10] == 0x00 && s[11] == 0xAA
    &&& s[12] == 0x00 && s[13] == 0x38 && s[14] == 0x9B && s[15] == 0x71
}

/// Whether a format tag means float samples; `None` for a tag the analysis cannot read.
pub open spec fn float_for_tag(tag: u16, subformat: Seq<u8>) -> Option<bool> {
    if tag == WAVE_FORMAT_IEEE_FLOAT {
        Some(true)
    } else if tag == WAVE_FORMAT_EXTENSIBLE {
        Some(float_subtype(subformat))
    } else if tag == WAVE_FORMAT_PCM {
        Some(false)
    } else {
        None
    }
}

/// A mix format the analysis can decode.
#[derive(Clone, Copy, Debug, PartialEq, Eq)]
pub struct AudioFormat {
    pub channels: usize,
    /// Frames per second.
    pub rate: u32,
    pub bits: u16,
    pub is_float: bool,
}

fn is_float_subtype(s: &[u8]) -> (r: bool)
    ensures
        r == float_subtype(s@),
{
    s.len() == 16
        && s[0] == 0x03 && s[1] == 0x00 && s[2] == 0x00 && s[3] == 0x00
        && s[4] == 0x00 && s[5] == 0x00 && s[6] == 0x10 && s[7] == 0x00
        && s[8] == 0x80 && s[9] == 0x00 && s[10] == 0x00 && s[11] == 0xAA
        && s[12] == 0x00 && s[13] == 0x38 && s[14] == 0x9B && s[15] == 0x71
}

impl AudioFormat {
    /// The format of a `WAVEFORMATEX` header with these fields, `subformat` being the
    /// sixteen bytes after it (read only for the extensible tag). Refused: a tag other
    /// than PCM, float or extensible; no channels or no frames per second; integer
    /// samples of a width other than 16 or 32 bits.
    pub fn parse(tag: u16, channels: u16, samples_per_sec: u32, bits: u16, subformat: &[u8]) -> (r: Option<AudioFormat>)
        ensures
            r is Some <==> ({
                &&& float_for_tag(tag, subformat@) is Some
                &&& channels != 0
                &&& samples_per_sec != 0
                &&& (float_for_tag(tag, subformat@) == Some(true) || bits == 16 || bits == 32)
            }),
            r matches Some(f) ==> {
                &&& f.channels == channels as usize
                &&& f.rate == samples_per_sec
                &&& f.bits == bits
                &&& Some(f.is_float) == float_for_tag(tag, subformat@)
            },
    {
        let is_float = if tag == WAVE_FORMAT_IEEE_FLOAT {
            true
        } else if tag == WAVE_FORMAT_EXTENSIBLE {
            is_float_subtype(subformat)
        } else if tag == WAVE_FORMAT_PCM {
            false
        } else {
            return None;
        };
        if channels == 0 || samples_per_sec == 0 {
            return None;
        }
        if !is_float && bits != 16 && bits != 32 {
            return None;
        }
        Some(AudioFormat { channels: channels as usize, rate: samples_per_sec, bits, is_float })
    }

    /// The bytes a packet of `frames` frames takes: every channel's sample, each of
    /// `bits / 8` bytes.
    pub fn bytes_for(&self, frames: usize) -> (r: usize)
        requires
            frames * self.channels <= usize::MAX,
            frames * self.channels * (self.bits / 8) <= usize::MAX,
        ensures
            r == frames * self.channels * (self.bits / 8),
    {
        let width = (self.bits / 8) as usize;
        let per = frames * self.channels;
        per * width
    }
}

} // verus!
