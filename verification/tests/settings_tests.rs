use plasma::fastmath::Frac;
use plasma::genetics::{EvictionPolicy, Genome};
use plasma::settings::{
    build_plasma_settings, parse_decimal, parse_unsigned, CliArgs, OutputMode, SettingsError,
};

fn empty_args() -> CliArgs {
    CliArgs {
        genome_strings: vec![],
        dithering: false,
        fps: None,
        loop_duration: None,
        palette: None,
        width: None,
        height: None,
        output: None,
    }
}

#[test]
fn test_parse_unsigned() {
    assert_eq!(parse_unsigned(&b"0".to_vec()), Some(0));
    assert_eq!(parse_unsigned(&b"42".to_vec()), Some(42));
    assert_eq!(parse_unsigned(&b"000123".to_vec()), Some(123));
    assert_eq!(parse_unsigned(&Vec::new()), None);
    assert_eq!(parse_unsigned(&b"12a".to_vec()), None);
    assert_eq!(parse_unsigned(&b"-5".to_vec()), None);
    assert_eq!(parse_unsigned(&b"18446744073709551615".to_vec()), Some(u64::MAX));
    assert_eq!(parse_unsigned(&b"18446744073709551616".to_vec()), None);
}

#[test]
fn test_parse_decimal() {
    let f = parse_decimal(&b"2.5".to_vec()).unwrap();
    assert_eq!((f.num, f.den), (25, 10));
    let g = parse_decimal(&b"16".to_vec()).unwrap();
    assert_eq!((g.num, g.den), (16, 1));
    let h = parse_decimal(&b"0.001".to_vec()).unwrap();
    assert_eq!((h.num, h.den), (1, 1000));
    let i = parse_decimal(&b"10.".to_vec()).unwrap();
    assert_eq!((i.num, i.den), (10, 1));
    assert!(parse_decimal(&b"".to_vec()).is_none());
    assert!(parse_decimal(&b".5".to_vec()).is_none());
    assert!(parse_decimal(&b"1.2.3".to_vec()).is_none());
    assert!(parse_decimal(&b"1.0000000001".to_vec()).is_none());
    assert!(parse_decimal(&b"abc".to_vec()).is_none());
}

#[test]
fn test_interactive_defaults() {
    let p = build_plasma_settings(&empty_args(), 1, EvictionPolicy::EvictOldest).unwrap();
    assert!(!p.rendering.dithering);
    assert_eq!(p.rendering.frames_per_second, Frac::new(16, 1));
    assert_eq!(p.rendering.loop_duration, Frac::new(60, 1));
    assert_eq!(p.rendering.palette_size, None);
    assert_eq!(p.rendering.width, 640);
    assert_eq!(p.rendering.height, 480);
    assert!(matches!(p.output.mode, OutputMode::Interactive));
    // With no genome supplied, a starting population is generated.
    assert_eq!(p.genetics.population.genomes.len(), 8);
    assert_eq!(p.genetics.population.max_size, 32);
}

#[test]
fn test_file_defaults() {
    let mut args = empty_args();
    args.output = Some(b"out.gif".to_vec());
    let p = build_plasma_settings(&args, 1, EvictionPolicy::EvictOldest).unwrap();
    assert!(p.rendering.dithering);
    assert_eq!(p.rendering.frames_per_second, Frac::new(10, 1));
    assert_eq!(p.rendering.palette_size, Some(64));
    assert_eq!(p.rendering.width, 320);
    assert_eq!(p.rendering.height, 240);
    match &p.output.mode {
        OutputMode::File { path } => assert_eq!(path, &b"out.gif".to_vec()),
        OutputMode::Interactive => panic!("expected file output"),
    }
}

#[test]
fn test_option_overrides() {
    let mut args = empty_args();
    args.dithering = true;
    args.fps = Some(b"2.5".to_vec());
    args.loop_duration = Some(b"90".to_vec());
    args.palette = Some(b"128".to_vec());
    args.width = Some(b"100".to_vec());
    args.height = Some(b"50".to_vec());
    let p = build_plasma_settings(&args, 1, EvictionPolicy::RejectNew).unwrap();
    assert!(p.rendering.dithering);
    assert_eq!(p.rendering.frames_per_second, Frac::new(25, 10));
    assert_eq!(p.rendering.loop_duration, Frac::new(90, 1));
    assert_eq!(p.rendering.palette_size, Some(128));
    assert_eq!(p.rendering.width, 100);
    assert_eq!(p.rendering.height, 50);
    assert_eq!(p.genetics.population.policy, EvictionPolicy::RejectNew);
}

#[test]
fn test_dithering_flag_defaults_palette() {
    let mut args = empty_args();
    args.dithering = true;
    let p = build_plasma_settings(&args, 1, EvictionPolicy::EvictOldest).unwrap();
    assert!(p.rendering.dithering);
    assert_eq!(p.rendering.palette_size, Some(255));
}

#[test]
fn test_supplied_genomes() {
    let g1 = Genome::generate(10);
    let g2 = Genome::generate(20);
    let mut args = empty_args();
    args.genome_strings = vec![g1.to_base64(), g2.to_base64()];
    let p = build_plasma_settings(&args, 1, EvictionPolicy::EvictOldest).unwrap();
    assert_eq!(p.genetics.population.genomes.len(), 2);
    assert_eq!(p.genetics.genome.to_base64(), g1.to_base64());
    assert_eq!(p.genetics.population.genomes[1].to_base64(), g2.to_base64());
}

#[test]
fn test_bad_genome_named() {
    let mut args = empty_args();
    args.genome_strings = vec![Genome::generate(1).to_base64(), b"not-a-genome".to_vec()];
    let r = build_plasma_settings(&args, 1, EvictionPolicy::EvictOldest);
    match r {
        Err(SettingsError::BadGenome(s)) => assert_eq!(s, b"not-a-genome".to_vec()),
        _ => panic!("expected a genome fault"),
    }
}

#[test]
fn test_fps_not_positive() {
    let mut args = empty_args();
    args.fps = Some(b"0".to_vec());
    assert!(matches!(
        build_plasma_settings(&args, 1, EvictionPolicy::EvictOldest),
        Err(SettingsError::NotAPositiveNumber(_))
    ));
    args.fps = Some(b"abc".to_vec());
    assert!(matches!(
        build_plasma_settings(&args, 1, EvictionPolicy::EvictOldest),
        Err(SettingsError::NotAPositiveNumber(_))
    ));
}

#[test]
fn test_loop_duration_not_positive() {
    let mut args = empty_args();
    args.loop_duration = Some(b"0.0".to_vec());
    assert!(matches!(
        build_plasma_settings(&args, 1, EvictionPolicy::EvictOldest),
        Err(SettingsError::NotAPositiveNumber(_))
    ));
}

#[test]
fn test_palette_size_range() {
    let mut args = empty_args();
    args.palette = Some(b"1".to_vec());
    assert!(matches!(
        build_plasma_settings(&args, 1, EvictionPolicy::EvictOldest),
        Err(SettingsError::BadPaletteSize(_))
    ));
    args.palette = Some(b"256".to_vec());
    assert!(matches!(
        build_plasma_settings(&args, 1, EvictionPolicy::EvictOldest),
        Err(SettingsError::BadPaletteSize(_))
    ));
    args.palette = Some(b"2".to_vec());
    let p = build_plasma_settings(&args, 1, EvictionPolicy::EvictOldest).unwrap();
    assert_eq!(p.rendering.palette_size, Some(2));
}

#[test]
fn test_width_without_height() {
    let mut args = empty_args();
    args.width = Some(b"100".to_vec());
    assert!(matches!(
        build_plasma_settings(&args, 1, EvictionPolicy::EvictOldest),
        Err(SettingsError::WidthWithoutHeight)
    ));
}

#[test]
fn test_bad_dimension() {
    let mut args = empty_args();
    args.width = Some(b"0".to_vec());
    args.height = Some(b"50".to_vec());
    assert!(matches!(
        build_plasma_settings(&args, 1, EvictionPolicy::EvictOldest),
        Err(SettingsError::BadDimension(_))
    ));
    args.width = Some(b"100".to_vec());
    args.height = Some(b"x".to_vec());
    assert!(matches!(
        build_plasma_settings(&args, 1, EvictionPolicy::EvictOldest),
        Err(SettingsError::BadDimension(_))
    ));
}
