//! The binary "wave" stream: a little-endian station-count header, then one
//! sample per recorded step — an 8-byte timestamp followed by each station's
//! 4-byte occupancy and 1-byte state code.

use vstd::prelude::*;

use crate::basestation::{BaseStation, BaseStationState};

verus! {

/// The four little-endian bytes of a 32-bit value.
pub open spec fn le_bytes_u32(x: u32) -> Seq<u8> {
    seq![
        (x & 0xff) as u8,
        ((x >> 8) & 0xff) as u8,
        ((x >> 16) & 0xff) as u8,
        ((x >> 24) & 0xff) as u8,
    ]
}

/// The eight little-endian bytes of a 64-bit value.
pub open spec fn le_bytes_u64(x: u64) -> Seq<u8> {
    seq![
        (x & 0xff) as u8,
        ((x >> 8) & 0xff) as u8,
        ((x >> 16) & 0xff) as u8,
        ((x >> 24) & 0xff) as u8,
        ((x >> 32) & 0xff) as u8,
        ((x >> 40) & 0xff) as u8,
        ((x >> 48) & 0xff) as u8,
        ((x >> 56) & 0xff) as u8,
    ]
}

/// The one-byte code of a power state.
pub open spec fn state_code(s: BaseStationState) -> u8 {
    match s {
        BaseStationState::Active => 4,
        BaseStationState::Sleep => 1,
        BaseStationState::PowerUp(_) => 3,
        BaseStationState::PowerDown(_) => 2,
    }
}

/// One station's slice of a sample: its occupancy, then its state code.
pub open spec fn station_sample_bytes(s: BaseStation) -> Seq<u8> {
    le_bytes_u32(s.pool_size() as u32) + seq![state_code(s.state)]
}

/// The per-station body of one sample, stations in order.
pub open spec fn sample_body_bytes(stations: Seq<BaseStation>) -> Seq<u8>
    decreases stations.len(),
{
    if stations.len() == 0 {
        Seq::<u8>::empty()
    } else {
        sample_body_bytes(stations.drop_last()) + station_sample_bytes(stations.last())
    }
}

/// Appends the four little-endian bytes of `x`.
pub fn append_u32_le(wave: &mut Vec<u8>, x: u32)
    ensures
        final(wave)@ == old(wave)@ + le_bytes_u32(x),
{
    proof {
        assert((x & 0xff) <= 0xff && ((x >> 8) & 0xff) <= 0xff && ((x >> 16) & 0xff) <= 0xff && ((x
            >> 24) & 0xff) <= 0xff) by (bit_vector);
    }
    wave.push((x & 0xff) as u8);
    wave.push(((x >> 8) & 0xff) as u8);
    wave.push(((x >> 16) & 0xff) as u8);
    wave.push(((x >> 24) & 0xff) as u8);
    proof {
        assert(wave@ =~= old(wave)@ + le_bytes_u32(x));
    }
}

/// Appends the eight little-endian bytes of `x`.
pub fn append_u64_le(wave: &mut Vec<u8>, x: u64)
    ensures
        final(wave)@ == old(wave)@ + le_bytes_u64(x),
{
    proof {
        assert((x & 0xff) <= 0xff && ((x >> 8) & 0xff) <= 0xff && ((x >> 16) & 0xff) <= 0xff && ((x
            >> 24) & 0xff) <= 0xff && ((x >> 32) & 0xff) <= 0xff && ((x >> 40) & 0xff) <= 0xff && ((
        x >> 48) & 0xff) <= 0xff && ((x >> 56) & 0xff) <= 0xff) by (bit_vector);
    }
    wave.push((x & 0xff) as u8);
    wave.push(((x >> 8) & 0xff) as u8);
    wave.push(((x >> 16) & 0xff) as u8);
    wave.push(((x >> 24) & 0xff) as u8);
    wave.push(((x >> 32) & 0xff) as u8);
    wave.push(((x >> 40) & 0xff) as u8);
    wave.push(((x >> 48) & 0xff) as u8);
    wave.push(((x >> 56) & 0xff) as u8);
    proof {
        assert(wave@ =~= old(wave)@ + le_bytes_u64(x));
    }
}

/// Appends the stream header: the station count as 32-bit little-endian.
pub fn append_wave_header(wave: &mut Vec<u8>, stations_count: usize)
    ensures
        final(wave)@ == old(wave)@ + le_bytes_u32(stations_count as u32),
{
    #[verifier::truncate]
    let x = stations_count as u32;
    append_u32_le(wave, x);
}

/// The executable form of `state_code`.
pub fn station_state_code(s: &BaseStationState) -> (r: u8)
    ensures
        r == state_code(*s),
{
    match s {
        BaseStationState::Active => 4,
        BaseStationState::Sleep => 1,
        BaseStationState::PowerUp(_) => 3,
        BaseStationState::PowerDown(_) => 2,
    }
}

/// Appends one full sample: the timestamp, then every station's occupancy
/// and state code in order.
pub fn append_wave_sample(wave: &mut Vec<u8>, time: u64, stations: &Vec<BaseStation>)
    ensures
        final(wave)@ == old(wave)@ + le_bytes_u64(time) + sample_body_bytes(stations@),
{
    append_u64_le(wave, time);
    let n = stations.len();
    let mut i: usize = 0;
    proof {
        assert(stations@.take(0int) =~= Seq::<BaseStation>::empty());
        assert(wave@ =~= old(wave)@ + le_bytes_u64(time) + sample_body_bytes(
            stations@.take(0int),
        ));
    }
    while i < n
        invariant
            n == stations@.len(),
            i <= n,
            wave@ == old(wave)@ + le_bytes_u64(time) + sample_body_bytes(stations@.take(i as int)),
        decreases n - i,
    {
        let used = stations[i].get_usage_raw();
        #[verifier::truncate]
        let used32 = used as u32;
        append_u32_le(wave, used32);
        let code = station_state_code(&stations[i].state);
        wave.push(code);
        proof {
            assert(stations@.take(i + 1int).drop_last() =~= stations@.take(i as int));
            assert(stations@.take(i + 1int).last() == stations@[i as int]);
            assert(wave@ =~= old(wave)@ + le_bytes_u64(time) + sample_body_bytes(
                stations@.take(i + 1int),
            ));
        }
        i = i + 1;
    }
    proof {
        assert(stations@.take(n as int) =~= stations@);
    }
}

} // verus!
