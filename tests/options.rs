use raytracer::hit::Face;
use raytracer::tile::TileConfig;
use raytracer::RenderOptions;

#[test]
fn face_defaults_to_front() {
    assert_eq!(Face::default(), Face::Front);
    assert_ne!(Face::default(), Face::Back);
}

#[test]
fn render_options_hold_their_settings() {
    let options = RenderOptions {
        samples: 10,
        max_scatter: 0,
        tile_config: TileConfig::new(32, 16),
    };
    assert_eq!(options.samples, 10);
    assert_eq!(options.max_scatter, 0);
    assert_eq!((options.tile_config.width, options.tile_config.height), (32, 16));
}
