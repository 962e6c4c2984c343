use wstm::spectrum::{band_for_bin, fft_size_for, Band};

#[test]
fn fft_size_is_at_least_256() {
    assert_eq!(fft_size_for(0), 256);
    assert_eq!(fft_size_for(1), 256);
    assert_eq!(fft_size_for(256), 256);
}

#[test]
fn fft_size_is_the_next_power_of_two() {
    assert_eq!(fft_size_for(257), 512);
    assert_eq!(fft_size_for(512), 512);
    assert_eq!(fft_size_for(513), 1024);
    assert_eq!(fft_size_for(4096), 4096);
    assert_eq!(fft_size_for(5000), 8192);
}

#[test]
fn bins_split_into_three_bands() {
    // 256 bins: bass below 51.2, mid below 140.8
    assert_eq!(band_for_bin(0, 256), Band::Bass);
    assert_eq!(band_for_bin(51, 256), Band::Bass);
    assert_eq!(band_for_bin(52, 256), Band::Mid);
    assert_eq!(band_for_bin(140, 256), Band::Mid);
    assert_eq!(band_for_bin(141, 256), Band::Treble);
    assert_eq!(band_for_bin(255, 256), Band::Treble);
}

#[test]
fn bands_match_relative_frequency() {
    for bins in [128usize, 256, 512, 2048] {
        for index in 0..bins {
            let freq = index as f32 / (bins as f32);
            let expected = if freq < 0.2 {
                Band::Bass
            } else if freq < 0.55 {
                Band::Mid
            } else {
                Band::Treble
            };
            assert_eq!(band_for_bin(index, bins), expected);
        }
    }
}
