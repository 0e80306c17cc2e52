use deck_pi::file::{vet, Container, Depth, Reject, TrackInfo, SUPPORTED_RATES};
use deck_pi::sndfile::ffi;

fn info(format: i32, samplerate: i32, channels: i32) -> ffi::SF_INFO {
    ffi::SF_INFO {
        frames: 1024,
        samplerate,
        channels,
        format,
        sections: 1,
        seekable: 1,
    }
}

#[test]
fn every_in_scope_combination_is_accepted() {
    let containers = [
        ffi::SF_FORMAT_WAV,
        ffi::SF_FORMAT_WAVEX,
        ffi::SF_FORMAT_AIFF,
        ffi::SF_FORMAT_RF64,
        ffi::SF_FORMAT_W64,
    ];
    let depths = [
        (ffi::SF_FORMAT_PCM_16, Depth::Int16),
        (ffi::SF_FORMAT_PCM_24, Depth::Int24),
    ];
    let mut accepted = 0;
    for container in containers {
        for (sub, want_depth) in depths {
            for rate in SUPPORTED_RATES {
                for channels in [1, 2] {
                    let i = info(container | sub, rate as i32, channels);
                    let (_c, depth, got_rate, got_ch) =
                        vet(&i).expect("in-scope header must be accepted");
                    assert_eq!(depth, want_depth);
                    assert_eq!(got_rate, rate);
                    assert_eq!(got_ch, channels as u32);
                    accepted += 1;
                }
            }
        }
    }
    assert_eq!(accepted, 120);
}

#[test]
fn out_of_scope_depths_are_refused_by_depth() {
    for sub in [
        ffi::SF_FORMAT_PCM_S8,
        ffi::SF_FORMAT_PCM_U8,
        ffi::SF_FORMAT_PCM_32,
        ffi::SF_FORMAT_FLOAT,
        ffi::SF_FORMAT_DOUBLE,
        0x0011,
        0x0080,
        0x0064,
    ] {
        let i = info(ffi::SF_FORMAT_WAV | sub, 44_100, 2);
        assert_eq!(vet(&i), Err(Reject::Depth { found: sub }), "subtype {:#x}", sub);
    }
}

#[test]
fn out_of_scope_containers_are_refused_by_container() {
    for container in [
        0x03_0000,
        0x04_0000,
        0x0A_0000,
        0x18_0000,
        0x20_0000,
        0x23_0000,
    ] {
        let i = info(container | ffi::SF_FORMAT_PCM_16, 44_100, 2);
        assert_eq!(vet(&i), Err(Reject::Container), "container {:#x}", container);
    }
}

#[test]
fn a_rate_between_two_supported_families_is_still_refused() {
    for rate in [32_000, 64_000, 22_050, 11_025, 384_000, 8_000] {
        let i = info(ffi::SF_FORMAT_WAV | ffi::SF_FORMAT_PCM_24, rate, 2);
        assert_eq!(vet(&i), Err(Reject::Rate { found: rate as u32 }));
    }
}

#[test]
fn zero_and_surround_channel_counts_are_refused() {
    for ch in [0, 3, 6, 8] {
        let i = info(ffi::SF_FORMAT_WAV | ffi::SF_FORMAT_PCM_16, 48_000, ch);
        assert_eq!(vet(&i), Err(Reject::Channels { found: ch as u32 }));
    }
}

#[test]
fn container_order_of_checks_reports_the_container_first() {
    let i = info(0x18_0000 | ffi::SF_FORMAT_PCM_16, 44_100, 2);
    assert_eq!(vet(&i), Err(Reject::Container));
}

#[test]
fn the_2_gib_ceiling_is_only_flagged_on_32_bit_size_containers() {
    let over = TrackInfo {
        path: b"long.wav".to_vec(),
        frames: 2 * 1024 * 1024 * 1024 / 6 + 1,
        rate: 44_100,
        channels: 2,
        depth: Depth::Int24,
        container: Container::Wav,
        seekable: true,
    };
    assert!(over.declared_length_is_suspect());
    let rf64 = TrackInfo { container: Container::Rf64, ..over.clone() };
    assert!(!rf64.declared_length_is_suspect());
    let short = TrackInfo { frames: 44_100 * 300, ..over.clone() };
    assert!(!short.declared_length_is_suspect());
}

#[test]
fn left_justify_shifts_are_the_ones_sf_readf_int_documents() {
    assert_eq!(Depth::Int16.left_justify_shift(), 16);
    assert_eq!(Depth::Int24.left_justify_shift(), 8);
}
