//! What is asked of the capture stream, and what its buffers hold.

use vstd::prelude::*;

verus! {

/// How the stream announces itself to the audio graph.
#[derive(Debug)]
pub struct StreamSettings {
    pub media_type: String,
    pub media_category: String,
    pub media_role: String,
    pub node_name: String,
    /// The source node to capture from; `None` for the default source.
    pub target_object: Option<String>,
}

/// How samples lie in a buffer.
#[derive(Clone, Copy, Debug, PartialEq, Eq, Structural)]
pub enum SampleEncoding {
    /// 32-bit IEEE 754, least significant byte first.
    F32Le,
}

/// The audio format that the stream asks for; the graph converts to it.
#[derive(Clone, Copy, Debug, PartialEq, Eq, Structural)]
pub struct CaptureFormat {
    pub encoding: SampleEncoding,
    pub rate: u32,
    pub channels: u32,
}

/// The numbers by which the audio graph names what the stream looks for in a
/// parameter change.
#[derive(Clone, Copy, Debug, PartialEq, Eq, Structural)]
pub struct FormatIds {
    /// The parameter that carries the format.
    pub format_param: u32,
    /// The media type "audio".
    pub audio: u32,
    /// The media subtype "raw".
    pub raw: u32,
}

/// The settings of a capture stream on `target`.
pub fn stream_settings(target: Option<String>) -> (settings: StreamSettings)
    ensures
        settings.media_type@ == "Audio"@,
        settings.media_category@ == "Capture"@,
        settings.media_role@ == "Communication"@,
        settings.node_name@ == "whisper-capture"@,
        settings.target_object == target,
{
    StreamSettings {
        media_type: "Audio".to_owned(),
        media_category: "Capture".to_owned(),
        media_role: "Communication".to_owned(),
        node_name: "whisper-capture".to_owned(),
        target_object: target,
    }
}

/// The format to ask for: 32-bit samples on one channel at `rate`, so that
/// nothing is left to resample.
pub fn capture_format(rate: u32) -> (format: CaptureFormat)
    ensures
        format == (CaptureFormat { encoding: SampleEncoding::F32Le, rate, channels: 1 }),
{
    CaptureFormat { encoding: SampleEncoding::F32Le, rate, channels: 1 }
}

impl FormatIds {
    /// Whether a change of parameter `param_id` sets the format of the stream.
    /// `media` is the media type and subtype that the parameter's value names,
    /// `None` where there is no value or it names none.
    pub fn sets_format(&self, param_id: u32, media: Option<(u32, u32)>) -> (yes: bool)
        ensures
            yes == (param_id == self.format_param && media == Some((self.audio, self.raw))),
    {
        if param_id != self.format_param {
            return false;
        }
        match media {
            None => false,
            Some((media_type, media_subtype)) => media_type == self.audio && media_subtype
                == self.raw,
        }
    }
}

/// The bit pattern that four bytes hold, least significant first.
pub open spec fn le_word(b0: u8, b1: u8, b2: u8, b3: u8) -> int {
    b0 + 0x100 * b1 + 0x1_0000 * b2 + 0x100_0000 * b3
}

/// The samples in `bytes`, four bytes each; up to three bytes that remain at
/// the end are no sample.
pub open spec fn samples_in(bytes: Seq<u8>) -> Seq<u32> {
    Seq::new(
        bytes.len() / 4,
        |i: int| le_word(bytes[4 * i], bytes[4 * i + 1], bytes[4 * i + 2], bytes[4 * i + 3]) as u32,
    )
}

/// The bytes that hold `samples`, least significant byte first.
pub open spec fn bytes_of(samples: Seq<u32>) -> Seq<u8> {
    Seq::new(4 * samples.len(), |j: int| byte_of(samples[j / 4], j % 4))
}

/// Byte `k` of a bit pattern, byte 0 the least significant.
pub open spec fn byte_of(sample: u32, k: int) -> u8 {
    if k == 0 {
        (sample % 0x100) as u8
    } else if k == 1 {
        (sample / 0x100 % 0x100) as u8
    } else if k == 2 {
        (sample / 0x1_0000 % 0x100) as u8
    } else {
        (sample / 0x100_0000) as u8
    }
}

/// The part of a buffer that is filled: as much of it as its chunk reports.
pub open spec fn filled(bytes: Seq<u8>, chunk_size: u32) -> Seq<u8> {
    if chunk_size < bytes.len() {
        bytes.take(chunk_size as int)
    } else {
        bytes
    }
}

/// Samples that were written out as bytes are read back as they were.
pub proof fn law_samples_survive_the_buffer(samples: Seq<u32>)
    ensures
        samples_in(bytes_of(samples)) == samples,
{
    let bytes = bytes_of(samples);
    assert forall|i: int| 0 <= i < samples.len() implies samples_in(bytes)[i] == samples[i] by {
        assert((4 * i) / 4 == i && (4 * i + 1) / 4 == i && (4 * i + 2) / 4 == i && (4 * i + 3) / 4
            == i);
    }
    assert(samples_in(bytes) =~= samples);
}

/// Bytes behind the last whole sample change nothing.
pub proof fn law_broken_last_sample_is_dropped(bytes: Seq<u8>, rest: Seq<u8>)
    requires
        bytes.len() % 4 == 0,
        rest.len() < 4,
    ensures
        samples_in(bytes + rest) == samples_in(bytes),
{
    assert(samples_in(bytes + rest) =~= samples_in(bytes));
}

/// The samples of one dequeued buffer. `data` is the mapped memory of its first
/// plane, `None` where it is not mapped, and `chunk_size` the number of bytes
/// that its chunk reports as filled. `None` where no whole sample arrived.
pub fn captured_chunk(data: Option<&[u8]>, chunk_size: u32) -> (chunk: Option<Vec<u32>>)
    ensures
        chunk is Some <==> data is Some && filled(data->0@, chunk_size).len() >= 4,
        chunk is Some ==> chunk->0@ == samples_in(filled(data->0@, chunk_size)),
        chunk is Some <==> data is Some && data->0@.len() >= 4 && chunk_size >= 4,
        chunk is Some ==> chunk->0@.len() == (if chunk_size < data->0@.len() {
            chunk_size as int
        } else {
            data->0@.len() as int
        }) / 4,
{
    let bytes = match data {
        None => {
            return None;
        },
        Some(bytes) => bytes,
    };
    let size: usize = chunk_size as usize;
    let n: usize = if size < bytes.len() {
        size
    } else {
        bytes.len()
    };
    let mut samples: Vec<u32> = Vec::with_capacity(n / 4);
    let ghost valid = filled(bytes@, chunk_size);
    assert(valid.len() == n);
    for i in 0..n / 4
        invariant
            n <= bytes@.len(),
            valid.len() == n,
            valid == filled(bytes@, chunk_size),
            samples@ == samples_in(valid).take(i as int),
    {
        let word: u32 = bytes[4 * i] as u32 + 0x100 * (bytes[4 * i + 1] as u32) + 0x1_0000 * (bytes[4
            * i + 2] as u32) + 0x100_0000 * (bytes[4 * i + 3] as u32);
        samples.push(word);
        assert(samples@ =~= samples_in(valid).take(i + 1));
    }
    assert(samples@ =~= samples_in(valid));
    if samples.len() == 0 {
        None
    } else {
        Some(samples)
    }
}

/// Four bytes are one sample, the least significant byte first, and the samples
/// of bytes that end with a whole sample are followed by those of what comes
/// after.
pub proof fn law_samples_lie_one_after_the_other(
    b0: u8,
    b1: u8,
    b2: u8,
    b3: u8,
    bytes: Seq<u8>,
    more: Seq<u8>,
)
    requires
        bytes.len() % 4 == 0,
    ensures
        samples_in(seq![b0, b1, b2, b3]).len() == 1,
        samples_in(seq![b0, b1, b2, b3])[0] as int == b0 + 256 * b1 + 65536 * b2 + 16777216 * b3,
        samples_in(bytes + more) == samples_in(bytes) + samples_in(more),
{
    let n = (bytes.len() / 4) as int;
    let whole = samples_in(bytes + more);
    assert(whole.len() == n + more.len() / 4);
    assert forall|i: int| 0 <= i < whole.len() implies whole[i] == (samples_in(bytes) + samples_in(
        more,
    ))[i] by {
        if i >= n {
            assert(4 * i - bytes.len() == 4 * (i - n));
        }
    }
    assert(whole =~= samples_in(bytes) + samples_in(more));
}

/// All of the filled part is read and nothing behind it: where the chunk reports
/// `size` of the bytes as filled, there are as many samples as whole ones lie in
/// the smaller of `size` and the length of the buffer, and each is made of its
/// four bytes.
pub proof fn law_the_filled_part_is_read(bytes: Seq<u8>, size: u32)
    ensures
        ({
            let n = if size < bytes.len() {
                size as int
            } else {
                bytes.len() as int
            };
            let samples = samples_in(filled(bytes, size));
            &&& samples.len() == n / 4
            &&& forall|i: int|
                0 <= i < n / 4 ==> (#[trigger] samples[i]) as int == bytes[4 * i] + 256 * bytes[4 * i
                    + 1] + 65536 * bytes[4 * i + 2] + 16777216 * bytes[4 * i + 3]
        }),
{
}

/// A buffer that holds samples and nothing else gives back all of them, and one
/// that is filled in part gives back those in that part, whatever lies behind.
pub proof fn law_samples_survive_the_capture(samples: Seq<u32>, behind: Seq<u8>)
    requires
        4 * samples.len() <= u32::MAX,
    ensures
        samples_in(filled(bytes_of(samples), (4 * samples.len()) as u32)) == samples,
        samples_in(filled(bytes_of(samples) + behind, (4 * samples.len()) as u32)) == samples,
        samples_in(filled(bytes_of(samples), u32::MAX)) == samples,
{
    let bytes = bytes_of(samples);
    law_samples_survive_the_buffer(samples);
    assert(filled(bytes, (4 * samples.len()) as u32) =~= bytes);
    assert(filled(bytes + behind, (4 * samples.len()) as u32) =~= bytes);
    assert(filled(bytes, u32::MAX) =~= bytes);
}

} // verus!
