use ytdl::quality::{parse_quality, parse_u32, quality_from_lowercase, Quality, VideoQuality};

#[test]
fn keywords_in_any_case() {
    assert_eq!(parse_quality("best"), VideoQuality::Best);
    assert_eq!(parse_quality("HIGH"), VideoQuality::High);
    assert_eq!(parse_quality("Medium"), VideoQuality::Medium);
    assert_eq!(parse_quality("low"), VideoQuality::Low);
    assert_eq!(parse_quality("WoRsT"), VideoQuality::Worst);
}

#[test]
fn heights_and_fallback() {
    assert_eq!(parse_quality("1080"), VideoQuality::CustomHeight(1080));
    assert_eq!(parse_quality("+720"), VideoQuality::CustomHeight(720));
    assert_eq!(parse_quality("0480"), VideoQuality::CustomHeight(480));
    assert_eq!(parse_quality("4294967295"), VideoQuality::CustomHeight(4294967295));
    assert_eq!(parse_quality("4294967296"), VideoQuality::Best);
    assert_eq!(parse_quality("-1"), VideoQuality::Best);
    assert_eq!(parse_quality("720p"), VideoQuality::Best);
    assert_eq!(parse_quality(""), VideoQuality::Best);
    assert_eq!(parse_quality(" best"), VideoQuality::Best);
}

#[test]
fn keyword_step_needs_lower_case() {
    assert_eq!(quality_from_lowercase("high"), VideoQuality::High);
    assert_eq!(quality_from_lowercase("HIGH"), VideoQuality::Best);
}

#[test]
fn parse_u32_matches_std() {
    for s in ["0", "+0", "+", "", "-0", "12a", "99999999999", "4294967295", "4294967296", "007", "++1"] {
        assert_eq!(parse_u32(s), s.parse::<u32>().ok());
    }
}

#[test]
fn window_qualities() {
    let all = [Quality::Best, Quality::P1080, Quality::P720, Quality::P480, Quality::Worst];
    let labels: Vec<&str> = all.iter().map(|q| q.label()).collect();
    assert_eq!(labels, vec!["Best", "1080p", "720p", "480p", "Worst"]);
    let texts: Vec<&str> = all.iter().map(|q| q.as_str()).collect();
    assert_eq!(texts, vec!["best", "1080", "720", "480", "worst"]);
    let parsed: Vec<VideoQuality> = all.iter().map(|q| parse_quality(q.as_str())).collect();
    assert_eq!(
        parsed,
        vec![
            VideoQuality::Best,
            VideoQuality::CustomHeight(1080),
            VideoQuality::CustomHeight(720),
            VideoQuality::CustomHeight(480),
            VideoQuality::Worst
        ]
    );
    assert_eq!(Quality::default(), Quality::Best);
}
