use plasma::asyncrenderer::AsyncRenderer;
use plasma::color::Color;
use plasma::colormapper::ColorMapper;
use plasma::fastmath::Frac;
use plasma::genetics::{Chromosome, Gene, Genome};
use plasma::renderer::{Image, PlasmaRenderer};
use plasma::settings::RenderingSettings;

fn dummy_settings() -> RenderingSettings {
    RenderingSettings {
        dithering: false,
        frames_per_second: Frac::new(16, 1),
        loop_duration: Frac::new(60, 1),
        palette_size: None,
        width: 32,
        height: 32,
    }
}

fn seeded_genome(seed: u64) -> Genome {
    Genome::generate(seed)
}

#[test]
fn test_image_new_and_plot() {
    let mut img = Image::new(2, 2);
    assert_eq!(img.width, 2);
    assert_eq!(img.height, 2);
    assert_eq!(img.pixel_data, vec![0u8; 12]);
    img.plot(1, 0, Color::new(10, 20, 30));
    assert_eq!(img.pixel_data, vec![0, 0, 0, 10, 20, 30, 0, 0, 0, 0, 0, 0]);
    img.plot(0, 1, Color::new(1, 2, 3));
    assert_eq!(img.pixel_data, vec![0, 0, 0, 10, 20, 30, 1, 2, 3, 0, 0, 0]);
}

// Two renderers built from the same genome and settings produce
// byte-identical images for the same time and dimensions.
#[test]
fn test_render_deterministic() {
    let genome = seeded_genome(4242);
    let settings = dummy_settings();
    let mut r1 = PlasmaRenderer::new(&genome, &settings);
    let mut r2 = PlasmaRenderer::new(&genome, &settings);
    let mut img1 = Image::new(16, 16);
    let mut img2 = Image::new(16, 16);
    r1.render(&mut img1, Frac::new(1, 3));
    r2.render(&mut img2, Frac::new(1, 3));
    assert_eq!(img1.pixel_data, img2.pixel_data);
    // A renderer can be reused at the same time value with the same output.
    let mut img3 = Image::new(16, 16);
    r1.render(&mut img3, Frac::new(1, 3));
    assert_eq!(img1.pixel_data, img3.pixel_data);
}

#[test]
fn test_render_dithering_is_deterministic() {
    let genome = seeded_genome(9);
    let mut settings = dummy_settings();
    settings.dithering = true;
    let mut r1 = PlasmaRenderer::new(&genome, &settings);
    let mut r2 = PlasmaRenderer::new(&genome, &settings);
    let mut img1 = Image::new(8, 8);
    let mut img2 = Image::new(8, 8);
    r1.render(&mut img1, Frac::new(0, 1));
    r2.render(&mut img2, Frac::new(0, 1));
    assert_eq!(img1.pixel_data, img2.pixel_data);
}

#[test]
fn test_get_palette_has_256_colors() {
    let genome = seeded_genome(5);
    let renderer = PlasmaRenderer::new(&genome, &dummy_settings());
    let palette = renderer.get_palette();
    assert_eq!(palette.len(), 256);
}

// An inactive color chromosome falls back to a single black stop, so the
// whole palette is black and every conversion yields black.
#[test]
fn test_colormapper_fallback_black() {
    let mut genes = vec![];
    for _ in 0..8 {
        genes.push(Gene { data: vec![0, 255, 255, 255, 128] });
    }
    let chromosome = Chromosome { genes };
    let cm = ColorMapper::new(&chromosome);
    let palette = cm.get_palette();
    assert_eq!(palette.len(), 256);
    for c in palette.iter() {
        assert_eq!(*c, Color::new(0, 0, 0));
    }
    assert_eq!(cm.convert(0), Color::new(0, 0, 0));
    assert_eq!(cm.convert(123456), Color::new(0, 0, 0));
    assert_eq!(cm.convert(-777), Color::new(0, 0, 0));
}

// A single active stop paints the whole circle in that one color.
#[test]
fn test_colormapper_single_stop() {
    let mut genes = vec![Gene { data: vec![255, 0, 255, 255, 0] }];
    for _ in 0..7 {
        genes.push(Gene { data: vec![0, 0, 0, 0, 0] });
    }
    let chromosome = Chromosome { genes };
    let cm = ColorMapper::new(&chromosome);
    let red = Color::new(255, 0, 0);
    for c in cm.get_palette().iter() {
        assert_eq!(*c, red);
    }
    assert_eq!(cm.convert(4321), red);
    assert_eq!(cm.dithered_convert(4321, 3, 2), red);
}

// Conversion wraps with period one in fixed-point units.
#[test]
fn test_convert_is_periodic() {
    let genome = seeded_genome(31);
    let cm = ColorMapper::new(&genome.color);
    for v in [0i64, 5000, 40000, -20000] {
        assert_eq!(cm.convert(v), cm.convert(v + 65536));
        assert_eq!(cm.convert(v), cm.convert(v - 65536));
    }
}

// The scheduler path and a direct synchronous render agree byte for byte.
#[test]
fn test_asyncrenderer_singlerender() {
    // Make a request
    let genome = seeded_genome(1111);
    let mut ar = AsyncRenderer::new(&dummy_settings());
    ar.set_genome(&genome);
    let req = ar.render(32, 32, Frac::new(0, 1));
    let resp = req.run();
    ar.complete(resp);
    let image1 = ar.get_image().unwrap();

    // Compare image with regular Renderer
    let mut r = PlasmaRenderer::new(&genome, &dummy_settings());
    let mut image2 = Image::new(32, 32);
    r.render(&mut image2, Frac::new(0, 1));
    assert_eq!(image1.pixel_data, image2.pixel_data);
}

// A result that finished before a newer request was issued is never
// surfaced; the newer request's image is.
#[test]
fn test_asyncrenderer_cancellation() {
    // Warm up the AsyncRenderer by making a small request and finishing it
    let mut ar = AsyncRenderer::new(&dummy_settings());
    ar.set_genome(&seeded_genome(2222));
    let warmup = ar.render(2, 2, Frac::new(0, 1));
    let warmup_resp = warmup.run();
    ar.complete(warmup_resp);
    assert!(ar.get_image().is_some());

    // Start of actual test: render image A and let it complete
    let req_a = ar.render(3, 3, Frac::new(1, 4));
    let resp_a = req_a.run();
    ar.complete(resp_a);

    // Render image B: A's completed result is now stale
    let req_b = ar.render(5, 5, Frac::new(1, 2));

    // Assert that image A is no longer available
    assert!(ar.get_image().is_none());

    // Assert that we eventually get image B (and not A)
    let resp_b = req_b.run();
    ar.complete(resp_b);
    let image = ar.get_image().unwrap();
    assert_eq!(image.width, 5);
}

// A stale completion is rejected even if it arrives after the newer one.
#[test]
fn test_asyncrenderer_stale_completion_dropped() {
    let mut ar = AsyncRenderer::new(&dummy_settings());
    ar.set_genome(&seeded_genome(3333));
    let req_a = ar.render(3, 3, Frac::new(0, 1));
    let req_b = ar.render(4, 4, Frac::new(0, 1));
    let resp_a = req_a.run();
    let resp_b = req_b.run();
    ar.complete(resp_b);
    ar.complete(resp_a); // stale: arrives last, must not overwrite
    let image = ar.get_image().unwrap();
    assert_eq!(image.width, 4);
    // The slot is cleared once the image is handed out.
    assert!(ar.get_image().is_none());
}

// Setting a new genome invalidates a completed but unqueried result.
#[test]
fn test_set_genome_invalidates() {
    let mut ar = AsyncRenderer::new(&dummy_settings());
    ar.set_genome(&seeded_genome(1));
    let req = ar.render(6, 6, Frac::new(0, 1));
    let resp = req.run();
    ar.complete(resp);
    ar.set_genome(&seeded_genome(2));
    assert!(ar.get_image().is_none());
}
