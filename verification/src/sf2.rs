//! Building a sound font from the structure of an SF2 file.
//!
//! The byte-level SF2 parser aborts on malformed input instead of
//! returning an error, and this library's functions may not abort, so
//! the parse stays outside the verified core: the embedding
//! application runs the parser under an abort guard and hands the
//! engine the plain [`Sf2Data`] structure below together with the raw
//! bytes.  The zone walk, the validation, the key ranges, the loop
//! rebasing and the cutting of sample words out of the bytes are all
//! verified here, with an exact account of which inputs build a font
//! and what the font holds.
use crate::error::Error;
use crate::node::{
    lemma_range_views_of, lemma_ranges_wf, node_view, range_view, range_views_of, ranges_wf,
    view_wf, GraphNode, RangeData, SoundFont,
};
use crate::types::{Balance, LoopRange, NoteRange};
use crate::wav::WavSource;
use vstd::prelude::*;

verus! {

broadcast use vstd::seq::group_seq_axioms;

/// One instrument zone: the sample it plays and the key range it
/// covers, where the file names them.
pub struct Sf2Zone {
    pub sample_index: Option<u16>,
    pub key_range: Option<(u8, u8)>,
}

/// One instrument: its zones in file order.
pub struct Sf2Instrument {
    pub zones: Vec<Sf2Zone>,
}

/// One sample header: positions in sixteen-bit words from the start of
/// the sample chunk, the recording rate and key, and whether the
/// sample is mono.
#[derive(Clone, Copy, Debug, PartialEq, Eq, Structural)]
pub struct Sf2SampleHeader {
    pub start: u32,
    pub end: u32,
    pub loop_start: u32,
    pub loop_end: u32,
    pub sample_rate: u32,
    pub origpitch: u8,
    pub is_mono: bool,
}

/// What the engine reads of a parsed SF2 file.
pub struct Sf2Data {
    pub version_major: u16,
    /// Byte offset of the sample words inside the file, when the file
    /// has a sample chunk.
    pub smpl_offset: Option<u64>,
    pub instruments: Vec<Sf2Instrument>,
    pub sample_headers: Vec<Sf2SampleHeader>,
}

/// The signed sixteen-bit little-endian word at byte offset `off`.
pub open spec fn spec_i16_le(b: Seq<u8>, off: int) -> int {
    let v = (b[off + 1] as int) * 256 + (b[off] as int);
    if v >= 32768 {
        v - 65536
    } else {
        v
    }
}

/// Reads `count` signed sixteen-bit little-endian words starting at a
/// byte offset.
fn read_i16_words(bytes: &[u8], off: usize, count: usize) -> (r: Vec<i16>)
    requires
        off + 2 * count <= bytes@.len(),
    ensures
        r@.len() == count,
        forall|k: int|
            0 <= k < count ==> r@[k] as int == spec_i16_le(bytes@, off + 2 * k),
{
    let blen = bytes.len();
    let mut out: Vec<i16> = Vec::new();
    let mut k: usize = 0;
    while k < count
        invariant
            k <= count,
            blen == bytes@.len(),
            off + 2 * count <= blen,
            out@.len() == k,
            forall|j: int| 0 <= j < k ==> out@[j] as int == spec_i16_le(bytes@, off + 2 * j),
        decreases count - k,
    {
        let lo = *vstd::slice::slice_index_get(bytes, off + 2 * k);
        let hi = *vstd::slice::slice_index_get(bytes, off + 2 * k + 1);
        let v: u32 = (hi as u32) * 256 + (lo as u32);
        let sv: i32 = if v >= 32768 {
            v as i32 - 65536
        } else {
            v as i32
        };
        out.push(sv as i16);
        k = k + 1;
    }
    out
}

/// Whether a zone names a sample the file actually holds; zones
/// without one are passed over.
pub open spec fn spec_zone_resolvable(z: Sf2Zone, headers: Seq<Sf2SampleHeader>) -> bool {
    match z.sample_index {
        Option::Some(si) => 0 <= si < headers.len(),
        Option::None => false,
    }
}

/// The header a resolvable zone names.
pub open spec fn spec_zone_header(z: Sf2Zone, headers: Seq<Sf2SampleHeader>) -> Sf2SampleHeader {
    headers[z.sample_index->0 as int]
}

/// Whether one zone can be built: a resolvable zone must be mono, name
/// a key range, and keep its sample and loop words inside the file.
pub open spec fn spec_zone_ok(
    z: Sf2Zone,
    headers: Seq<Sf2SampleHeader>,
    smpl_offset: int,
    bytes_len: int,
) -> bool {
    if spec_zone_resolvable(z, headers) {
        let h = spec_zone_header(z, headers);
        &&& h.is_mono
        &&& z.key_range is Some
        &&& h.start <= h.end
        &&& smpl_offset + 2 * (h.start as int) + 2 * ((h.end - h.start) as int) <= bytes_len
        &&& h.start <= h.loop_start
        &&& h.loop_start < h.loop_end
        &&& h.loop_end <= h.end
    } else {
        true
    }
}

pub open spec fn spec_zones_ok(
    zones: Seq<Sf2Zone>,
    headers: Seq<Sf2SampleHeader>,
    smpl_offset: int,
    bytes_len: int,
) -> bool
    decreases zones,
{
    if zones.len() == 0 {
        true
    } else {
        spec_zones_ok(zones.drop_last(), headers, smpl_offset, bytes_len) && spec_zone_ok(
            zones.last(),
            headers,
            smpl_offset,
            bytes_len,
        )
    }
}

/// Whether the whole structure builds a font: SF2 version 2, a
/// non-empty instrument list, an instrument index in range, a sample
/// chunk, and every zone of the chosen instrument in order.
pub open spec fn spec_sf2_ok(sf2: Sf2Data, bytes_len: int, instrument_index: int) -> bool {
    &&& sf2.version_major == 2
    &&& sf2.instruments@.len() > 0
    &&& 0 <= instrument_index < sf2.instruments@.len()
    &&& sf2.smpl_offset is Some
    &&& spec_zones_ok(
        sf2.instruments@[instrument_index].zones@,
        sf2.sample_headers@,
        sf2.smpl_offset->0 as int,
        bytes_len,
    )
}

/// Whether one voice is the fresh sampler a zone describes: mono, at
/// the header's key and rate, holding exactly the header's sample
/// words cut from the bytes, with the loop rebased onto the data.
pub open spec fn spec_voice_matches_zone(
    v: crate::node::NodeView,
    h: Sf2SampleHeader,
    smpl_offset: int,
    bytes: Seq<u8>,
) -> bool {
    &&& v is Wav
    &&& (match v {
        crate::node::NodeView::Wav(w) => {
            &&& !w.is_on
            &&& w.current_note == 0
            &&& w.source_note == h.origpitch
            &&& w.source_channel_count == 1
            &&& w.balance == Balance::Both
            &&& w.source_sample_rate == h.sample_rate
            &&& w.source_data@.len() == (h.end - h.start) as int
            &&& (forall|k: int|
                0 <= k < w.source_data@.len() ==> (#[trigger] w.source_data@[k]) as int
                    == spec_i16_le(bytes, smpl_offset + 2 * (h.start as int) + 2 * k))
            &&& w.data_position == w.source_data@.len()
            &&& w.loop_start_data_position == h.loop_start - h.start
            &&& w.loop_end_data_position == h.loop_end - h.start
        },
        _ => false,
    })
}

/// Whether a voice pool is the one a zone describes: the zone's key
/// range, the cursor at the first voice, and one fresh sampler per
/// polyphony voice.
pub open spec fn spec_range_matches_zone(
    r: crate::node::RangeView,
    z: Sf2Zone,
    headers: Seq<Sf2SampleHeader>,
    smpl_offset: int,
    bytes: Seq<u8>,
    voices: int,
) -> bool {
    let h = spec_zone_header(z, headers);
    &&& r.node_id == crate::DEFAULT_NODE_ID
    &&& r.next_on_index == 0
    &&& (z.key_range matches Some(kr) && r.range == NoteRange {
        lower_inclusive: kr.0,
        upper_inclusive: kr.1,
    })
    &&& r.consumers.len() == voices
    &&& (forall|v: int|
        0 <= v < voices ==> spec_voice_matches_zone(
            #[trigger] r.consumers[v],
            h,
            smpl_offset,
            bytes,
        ))
}

/// Whether a font's range list is what the instrument's zones
/// describe: one pool per resolvable zone, in file order.
pub open spec fn spec_ranges_match_zones(
    ranges: Seq<crate::node::RangeView>,
    zones: Seq<Sf2Zone>,
    headers: Seq<Sf2SampleHeader>,
    smpl_offset: int,
    bytes: Seq<u8>,
    voices: int,
) -> bool
    decreases zones,
{
    if zones.len() == 0 {
        ranges.len() == 0
    } else if spec_zone_resolvable(zones.last(), headers) {
        &&& ranges.len() >= 1
        &&& spec_ranges_match_zones(
            ranges.drop_last(),
            zones.drop_last(),
            headers,
            smpl_offset,
            bytes,
            voices,
        )
        &&& spec_range_matches_zone(
            ranges.last(),
            zones.last(),
            headers,
            smpl_offset,
            bytes,
            voices,
        )
    } else {
        spec_ranges_match_zones(ranges, zones.drop_last(), headers, smpl_offset, bytes, voices)
    }
}


pub proof fn lemma_zones_ok_index(
    zones: Seq<Sf2Zone>,
    headers: Seq<Sf2SampleHeader>,
    smpl_offset: int,
    bytes_len: int,
)
    ensures
        spec_zones_ok(zones, headers, smpl_offset, bytes_len) <==> (forall|i: int|
            0 <= i < zones.len() ==> spec_zone_ok(
                #[trigger] zones[i],
                headers,
                smpl_offset,
                bytes_len,
            )),
    decreases zones,
{
    if zones.len() > 0 {
        lemma_zones_ok_index(zones.drop_last(), headers, smpl_offset, bytes_len);
        if spec_zones_ok(zones, headers, smpl_offset, bytes_len) {
            assert forall|i: int| 0 <= i < zones.len() implies spec_zone_ok(
                #[trigger] zones[i],
                headers,
                smpl_offset,
                bytes_len,
            ) by {
                if i < zones.len() - 1 {
                    assert(zones.drop_last()[i] == zones[i]);
                }
            }
        } else {
            if forall|i: int|
                0 <= i < zones.len() ==> spec_zone_ok(
                    #[trigger] zones[i],
                    headers,
                    smpl_offset,
                    bytes_len,
                ) {
                assert forall|i: int| 0 <= i < zones.drop_last().len() implies spec_zone_ok(
                    #[trigger] zones.drop_last()[i],
                    headers,
                    smpl_offset,
                    bytes_len,
                ) by {
                    assert(zones.drop_last()[i] == zones[i]);
                }
                assert(spec_zone_ok(zones.last(), headers, smpl_offset, bytes_len));
                assert(false);
            }
        }
    }
}

/// Builds a range-routing font from one instrument of a parsed SF2
/// structure and the file's bytes.  Succeeds exactly when
/// [`spec_sf2_ok`] holds; the font then carries one pool of
/// `polyphony_voices` sampler voices (at least one) per zone that
/// names a sample the file holds, in file order.
pub fn soundfont_from_sf2(
    node_id: Option<u64>,
    sf2: &Sf2Data,
    bytes: &[u8],
    instrument_index: usize,
    polyphony_voices: usize,
) -> (r: Result<SoundFont, Error>)
    ensures
        r is Ok <==> spec_sf2_ok(*sf2, bytes@.len() as int, instrument_index as int),
        sf2.version_major != 2 ==> (r matches Err(e) && e is UnsupportedSf2Version),
        sf2.version_major == 2 && sf2.instruments@.len() == 0 ==> (r matches Err(e)
            && e is NoInstruments),
        r matches Ok(f) ==> {
            &&& f.node_id == (match node_id {
                Some(id) => id,
                None => crate::DEFAULT_NODE_ID,
            })
            &&& ranges_wf(range_views_of(f.ranges@))
            &&& spec_ranges_match_zones(
                range_views_of(f.ranges@),
                sf2.instruments@[instrument_index as int].zones@,
                sf2.sample_headers@,
                sf2.smpl_offset->0 as int,
                bytes@,
                (if polyphony_voices == 0 {
                    1int
                } else {
                    polyphony_voices as int
                }),
            )
        },
{
    if sf2.version_major != 2 {
        return Err(Error::UnsupportedSf2Version { major: sf2.version_major });
    }
    let count = sf2.instruments.len();
    if count == 0 {
        return Err(Error::NoInstruments);
    }
    if instrument_index >= count {
        return Err(Error::InstrumentIndexOutOfRange { index: instrument_index, count });
    }
    let smpl_offset: u64 = match sf2.smpl_offset {
        Some(o) => o,
        None => {
            return Err(Error::NoSampleData);
        },
    };
    let voice_target: usize = if polyphony_voices == 0 {
        1
    } else {
        polyphony_voices
    };
    let instrument = &sf2.instruments[instrument_index];
    let zones = instrument.zones.len();
    let ghost zs = instrument.zones@;
    let ghost headers = sf2.sample_headers@;
    let blen = bytes.len();
    let mut ranges: Vec<RangeData> = Vec::new();
    let mut z: usize = 0;
    while z < zones
        invariant
            sf2.version_major == 2,
            sf2.instruments@.len() > 0,
            0 <= instrument_index < sf2.instruments@.len(),
            zs == sf2.instruments@[instrument_index as int].zones@,
            headers == sf2.sample_headers@,
            sf2.smpl_offset matches Some(o) && o == smpl_offset,
            instrument.zones@ == zs,
            blen == bytes@.len(),
            voice_target >= 1,
            voice_target as int == (if polyphony_voices == 0 {
                1int
            } else {
                polyphony_voices as int
            }),
            zones == zs.len(),
            z <= zones,
            spec_zones_ok(zs.subrange(0, z as int), headers, smpl_offset as int, blen as int),
            spec_ranges_match_zones(
                range_views_of(ranges@),
                zs.subrange(0, z as int),
                headers,
                smpl_offset as int,
                bytes@,
                voice_target as int,
            ),
            forall|j: int|
                0 <= j < ranges@.len() ==> crate::node::range_wf(
                    range_view(#[trigger] ranges@[j]),
                ),
        decreases zones - z,
    {
        let ghost prev_zs = zs.subrange(0, z as int);
        let zone = &instrument.zones[z];
        let (resolvable, si): (bool, usize) = match zone.sample_index {
            Some(si) => ((si as usize) < sf2.sample_headers.len(), si as usize),
            None => (false, 0),
        };
        proof {
            assert(*zone == zs[z as int]);
            assert(resolvable == spec_zone_resolvable(zs[z as int], headers));
        }
        if !resolvable {
            z = z + 1;
            proof {
                assert(zs.subrange(0, z as int).drop_last() =~= prev_zs);
                assert(zs.subrange(0, z as int).last() == zs[z - 1]);
            }
            continue ;
        }
        let h = sf2.sample_headers[si];
        proof {
            assert(spec_zone_resolvable(zs[z as int], headers));
            assert(spec_zone_header(zs[z as int], headers) == h);
        }
        if !h.is_mono {
            proof {
                lemma_zones_ok_index(zs, headers, smpl_offset as int, blen as int);
            }
            return Err(Error::UnsupportedSampleType);
        }
        let note_range = match zone.key_range {
            Some(kr) => NoteRange::new_inclusive_range(kr.0, kr.1),
            None => {
                proof {
                    lemma_zones_ok_index(zs, headers, smpl_offset as int, blen as int);
                }
                return Err(Error::NoKeyRangeInZone);
            },
        };
        if h.start > h.end {
            proof {
                lemma_zones_ok_index(zs, headers, smpl_offset as int, blen as int);
            }
            return Err(Error::SampleOutOfBounds);
        }
        let word_count = (h.end - h.start) as usize;
        let byte_off_wide: u128 = (smpl_offset as u128) + (h.start as u128) * 2;
        let need: u128 = byte_off_wide + (word_count as u128) * 2;
        if need > blen as u128 {
            proof {
                lemma_zones_ok_index(zs, headers, smpl_offset as int, blen as int);
            }
            return Err(Error::SampleOutOfBounds);
        }
        let byte_off = byte_off_wide as usize;
        if h.loop_start < h.start || h.loop_start >= h.loop_end || h.loop_end > h.end {
            proof {
                lemma_zones_ok_index(zs, headers, smpl_offset as int, blen as int);
            }
            return Err(
                Error::InvalidLoopRange {
                    start_frame: h.loop_start as usize,
                    end_frame: h.loop_end as usize,
                },
            );
        }
        let loop_range = LoopRange::new_frame_range(
            (h.loop_start - h.start) as usize,
            (h.loop_end - h.start) as usize,
        );
        let data = read_i16_words(bytes, byte_off, word_count);
        let first = match WavSource::new_from_data(
            None,
            h.sample_rate,
            1,
            h.origpitch,
            Balance::Both,
            data,
            Some(loop_range),
        ) {
            Ok(w) => w,
            Err(_) => {
                return Err(
                    Error::InvalidLoopRange {
                        start_frame: h.loop_start as usize,
                        end_frame: h.loop_end as usize,
                    },
                );
            },
        };
        proof {
            assert((data@.len() as int) % 1int == 0) by (nonlinear_arith);
            assert(byte_off as int == smpl_offset as int + 2 * (h.start as int));
            assert forall|k: int| 0 <= k < first.source_data@.len() implies (
            #[trigger] first.source_data@[k]) as int == spec_i16_le(
                bytes@,
                smpl_offset as int + 2 * (h.start as int) + 2 * k,
            ) by {
                assert(first.source_data@[k] == data@[k]);
                assert(data@[k] as int == spec_i16_le(bytes@, byte_off as int + 2 * k));
            }
            assert(spec_voice_matches_zone(
                node_view(GraphNode::Wav(first)),
                h,
                smpl_offset as int,
                bytes@,
            ));
        }
        let mut voices: Vec<GraphNode> = Vec::new();
        let mut v: usize = 0;
        while v < voice_target - 1
            invariant
                voice_target >= 1,
                v <= voice_target - 1,
                first.wf(),
                spec_voice_matches_zone(
                    node_view(GraphNode::Wav(first)),
                    headers[zs[z as int].sample_index->0 as int],
                    smpl_offset as int,
                    bytes@,
                ),
                voices@.len() == v,
                forall|j: int|
                    0 <= j < voices@.len() ==> view_wf(node_view(#[trigger] voices@[j]))
                        && spec_voice_matches_zone(
                        node_view(#[trigger] voices@[j]),
                        headers[zs[z as int].sample_index->0 as int],
                        smpl_offset as int,
                        bytes@,
                    ),
            decreases voice_target - v,
        {
            voices.push(GraphNode::Wav(first.duplicate()));
            v = v + 1;
        }
        voices.push(GraphNode::Wav(first));
        proof {
            crate::node::lemma_views_of(voices@);
            crate::node::lemma_children_wf(crate::node::views_of(voices@));
            assert forall|j: int| 0 <= j < crate::node::views_of(voices@).len() implies view_wf(
                #[trigger] crate::node::views_of(voices@)[j],
            ) by {
                assert(crate::node::views_of(voices@)[j] == node_view(voices@[j]));
            }
        }
        let ghost prev_ranges = ranges@;
        ranges.push(RangeData::new(note_range, voices));
        z = z + 1;
        proof {
            assert(zs.subrange(0, z as int).drop_last() =~= prev_zs);
            assert(zs.subrange(0, z as int).last() == zs[z - 1]);
            lemma_range_views_of(ranges@);
            lemma_range_views_of(prev_ranges);
            assert(ranges@.drop_last() =~= prev_ranges);
            assert(range_views_of(ranges@).drop_last() =~= range_views_of(prev_ranges));
            assert(range_views_of(ranges@).last() == range_view(ranges@.last()));
            crate::node::lemma_views_of(ranges@.last().consumers@);
            assert forall|vi: int| 0 <= vi < voice_target as int implies
                spec_voice_matches_zone(
                #[trigger] range_view(ranges@.last()).consumers[vi],
                spec_zone_header(zs[z - 1], headers),
                smpl_offset as int,
                bytes@,
            ) by {
                assert(range_view(ranges@.last()).consumers[vi] == node_view(
                    ranges@.last().consumers@[vi],
                ));
            }
            assert(spec_range_matches_zone(
                range_view(ranges@.last()),
                zs[z - 1],
                headers,
                smpl_offset as int,
                bytes@,
                voice_target as int,
            ));
        }
    }
    proof {
        assert(zs.subrange(0, zones as int) =~= zs);
        lemma_range_views_of(ranges@);
        lemma_ranges_wf(range_views_of(ranges@));
        assert forall|j: int| 0 <= j < range_views_of(ranges@).len() implies
            crate::node::range_wf(#[trigger] range_views_of(ranges@)[j]) by {
            assert(range_views_of(ranges@)[j] == range_view(ranges@[j]));
        }
    }
    Ok(
        SoundFont {
            node_id: match node_id {
                Some(id) => id,
                None => crate::DEFAULT_NODE_ID,
            },
            ranges,
        },
    )
}

} // verus!
