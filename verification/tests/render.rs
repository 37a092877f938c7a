use gamecore::assets::AssetCatalog;
use gamecore::components::{Directional, Renderable, RenderableType};
use gamecore::render::{in_layer_order, DrawOp, Drawable, Placement};
use gamecore::systems::RenderingSystem;

type Pos = (f32, f32);
type Scale = (f32, f32);

const UNIT: Scale = (1.0, 1.0);

fn image(layer: i32, id: usize, x: f32) -> Drawable<Pos, Scale> {
    Drawable {
        renderable: Renderable { layer, tpe: RenderableType::Image { id } },
        position: (x, 0.0),
        scale: None,
        facing: None,
    }
}

fn animation(layer: i32, id: usize, frame: usize, length: usize, x: f32) -> Drawable<Pos, Scale> {
    Drawable {
        renderable: Renderable { layer, tpe: RenderableType::Animation { id, frame, length } },
        position: (x, 0.0),
        scale: None,
        facing: None,
    }
}

fn batch(layer: i32, id: usize, x: f32) -> Drawable<Pos, Scale> {
    Drawable {
        renderable: Renderable { layer, tpe: RenderableType::Batch { id } },
        position: (x, 0.0),
        scale: None,
        facing: None,
    }
}

fn at(x: f32) -> Placement<Pos, Scale> {
    Placement { position: (x, 0.0), scale: UNIT, mirrored: false }
}

fn catalog(images: &[usize], batches: &[usize], animations: &[usize]) -> AssetCatalog {
    let mut assets = AssetCatalog::new();
    for id in images {
        assets.add_image(*id);
    }
    for id in batches {
        assets.add_batch(*id);
    }
    for id in animations {
        assets.add_animation(*id);
    }
    assets
}

#[test]
fn images_are_drawn_by_ascending_layer() {
    let drawables = vec![image(0, 10, 0.0), image(2, 12, 2.0), image(1, 11, 1.0)];
    let assets = catalog(&[10, 11, 12], &[], &[]);
    let ops = RenderingSystem::new().run(&drawables, UNIT, &assets);
    assert_eq!(
        ops,
        vec![
            DrawOp::Image { id: 10, at: at(0.0) },
            DrawOp::Image { id: 11, at: at(1.0) },
            DrawOp::Image { id: 12, at: at(2.0) },
        ]
    );
}

#[test]
fn entities_of_one_layer_keep_encounter_order() {
    let drawables = vec![
        image(1, 1, 0.0),
        image(0, 2, 1.0),
        image(1, 3, 2.0),
        image(0, 4, 3.0),
        image(1, 5, 4.0),
        image(-3, 6, 5.0),
    ];
    let assets = catalog(&[1, 2, 3, 4, 5, 6], &[], &[]);
    let ops = RenderingSystem::new().run(&drawables, UNIT, &assets);
    let ids: Vec<usize> = ops
        .iter()
        .map(|op| match op {
            DrawOp::Image { id, .. } => *id,
            other => panic!("no image: {:?}", other),
        })
        .collect();
    assert_eq!(ids, vec![6, 2, 4, 1, 3, 5]);
}

#[test]
fn layer_order_lists_every_drawable_once() {
    let drawables = vec![image(5, 1, 0.0), image(5, 2, 1.0), image(4, 3, 2.0), image(6, 4, 3.0), image(5, 5, 4.0)];
    let ordered = in_layer_order(&drawables);
    assert_eq!(
        ordered,
        vec![image(4, 3, 2.0), image(5, 1, 0.0), image(5, 2, 1.0), image(5, 5, 4.0), image(6, 4, 3.0)]
    );
}

#[test]
fn layer_order_of_nothing_is_nothing() {
    let drawables: Vec<Drawable<Pos, Scale>> = Vec::new();
    assert!(in_layer_order(&drawables).is_empty());
    let ops = RenderingSystem::new().run(&drawables, UNIT, &AssetCatalog::new());
    assert!(ops.is_empty());
}

#[test]
fn missing_assets_are_passed_over() {
    let drawables = vec![image(0, 1, 0.0), image(0, 2, 1.0), batch(0, 1, 2.0), batch(0, 7, 3.0), animation(0, 9, 0, 4, 4.0)];
    let assets = catalog(&[2], &[7], &[3]);
    let ops = RenderingSystem::new().run(&drawables, UNIT, &assets);
    assert_eq!(
        ops,
        vec![
            DrawOp::Image { id: 2, at: at(1.0) },
            DrawOp::Batch { id: 7, at: at(3.0) },
            DrawOp::Flush { id: 3 },
        ]
    );
}

#[test]
fn image_batch_and_animation_ids_are_kept_apart() {
    let drawables = vec![image(0, 1, 0.0), batch(0, 1, 1.0), animation(0, 1, 0, 1, 2.0)];
    let ops = RenderingSystem::new().run(&drawables, UNIT, &catalog(&[1], &[], &[]));
    assert_eq!(ops, vec![DrawOp::Image { id: 1, at: at(0.0) }]);
    let ops = RenderingSystem::new().run(&drawables, UNIT, &catalog(&[], &[1], &[]));
    assert_eq!(ops, vec![DrawOp::Batch { id: 1, at: at(1.0) }]);
    let ops = RenderingSystem::new().run(&drawables, UNIT, &catalog(&[], &[], &[1]));
    assert_eq!(ops, vec![DrawOp::Sprite { id: 1, frame: 0, at: at(2.0) }, DrawOp::Flush { id: 1 }]);
}

#[test]
fn own_scale_wins_over_the_default() {
    let mut scaled = image(0, 1, 3.0);
    scaled.scale = Some((2.0, 0.5));
    let plain = image(0, 1, 4.0);
    let ops = RenderingSystem::new().run(&vec![scaled, plain], (3.0, 3.0), &catalog(&[1], &[], &[]));
    assert_eq!(
        ops,
        vec![
            DrawOp::Image { id: 1, at: Placement { position: (3.0, 0.0), scale: (2.0, 0.5), mirrored: false } },
            DrawOp::Image { id: 1, at: Placement { position: (4.0, 0.0), scale: (3.0, 3.0), mirrored: false } },
        ]
    );
}

#[test]
fn facing_left_mirrors_the_draw() {
    let mut left = animation(0, 1, 2, 5, 1.0);
    left.facing = Some(Directional::Left);
    left.scale = Some((2.0, 2.0));
    let mut right = image(0, 1, 2.0);
    right.facing = Some(Directional::Right);
    let mut left_batch = batch(0, 1, 3.0);
    left_batch.facing = Some(Directional::Left);
    let drawables = vec![left, right, left_batch];
    let ops = RenderingSystem::new().run(&drawables, UNIT, &catalog(&[1], &[1], &[1]));
    assert_eq!(
        ops,
        vec![
            DrawOp::Sprite {
                id: 1,
                frame: 2,
                at: Placement { position: (1.0, 0.0), scale: (2.0, 2.0), mirrored: true },
            },
            DrawOp::Image { id: 1, at: Placement { position: (2.0, 0.0), scale: UNIT, mirrored: false } },
            DrawOp::Batch { id: 1, at: Placement { position: (3.0, 0.0), scale: UNIT, mirrored: true } },
            DrawOp::Flush { id: 1 },
        ]
    );
    // the stored scale is what it was
    assert_eq!(drawables[0].scale, Some((2.0, 2.0)));
}

#[test]
fn animation_is_drawn_while_its_frame_lies_within_its_length() {
    let assets = catalog(&[], &[], &[4]);
    let mut system = RenderingSystem::new();
    let last = vec![animation(0, 4, 2, 3, 0.0)];
    assert_eq!(
        system.run(&last, UNIT, &assets),
        vec![DrawOp::Sprite { id: 4, frame: 2, at: at(0.0) }, DrawOp::Flush { id: 4 }]
    );
    let past = vec![animation(0, 4, 3, 3, 0.0)];
    assert_eq!(system.run(&past, UNIT, &assets), vec![DrawOp::Flush { id: 4 }]);
    let far = vec![animation(0, 4, usize::MAX, 3, 0.0)];
    assert_eq!(system.run(&far, UNIT, &assets), vec![DrawOp::Flush { id: 4 }]);
    let none = vec![animation(0, 4, 0, 0, 0.0)];
    assert_eq!(system.run(&none, UNIT, &assets), vec![DrawOp::Flush { id: 4 }]);
    // the entity is passed over, not removed
    assert_eq!(past.len(), 1);
}

#[test]
fn every_animation_is_flushed_once_after_all_draws() {
    let drawables = vec![
        animation(0, 2, 0, 4, 0.0),
        image(3, 1, 1.0),
        animation(1, 1, 1, 4, 2.0),
        batch(2, 5, 3.0),
        animation(5, 2, 3, 4, 4.0),
    ];
    let assets = catalog(&[1], &[5], &[1, 2, 3]);
    let ops = RenderingSystem::new().run(&drawables, UNIT, &assets);
    assert_eq!(
        ops,
        vec![
            DrawOp::Sprite { id: 2, frame: 0, at: at(0.0) },
            DrawOp::Sprite { id: 1, frame: 1, at: at(2.0) },
            DrawOp::Batch { id: 5, at: at(3.0) },
            DrawOp::Image { id: 1, at: at(1.0) },
            DrawOp::Sprite { id: 2, frame: 3, at: at(4.0) },
            DrawOp::Flush { id: 1 },
            DrawOp::Flush { id: 2 },
            DrawOp::Flush { id: 3 },
        ]
    );
}

#[test]
fn catalog_lists_each_animation_once() {
    let mut assets = AssetCatalog::new();
    assets.add_animation(7);
    assets.add_animation(3);
    assets.add_animation(7);
    assert_eq!(assets.animations(), &vec![7, 3]);
    assert!(assets.has_animation(7));
    assert!(assets.has_animation(3));
    assert!(!assets.has_animation(4));
}

#[test]
fn catalog_knows_what_was_added() {
    let mut assets = AssetCatalog::new();
    assert!(!assets.has_image(1));
    assert!(!assets.has_batch(1));
    assert!(!assets.has_animation(1));
    assert!(assets.animations().is_empty());
    assets.add_image(1);
    assets.add_image(1);
    assets.add_batch(2);
    assert!(assets.has_image(1));
    assert!(!assets.has_image(2));
    assert!(assets.has_batch(2));
    assert!(!assets.has_batch(1));
    assert!(!assets.has_animation(1));
}

#[test]
fn rendering_twice_gives_the_same_frame() {
    let drawables = vec![animation(1, 1, 0, 2, 0.0), image(0, 1, 1.0), image(1, 2, 2.0)];
    let assets = catalog(&[1, 2], &[], &[1]);
    let mut system = RenderingSystem::new();
    let first = system.run(&drawables, UNIT, &assets);
    let second = system.run(&drawables, UNIT, &assets);
    assert_eq!(first, second);
}

#[test]
fn only_queued_frames_go_through_the_camera() {
    let here = at(1.0);
    let image: DrawOp<Pos, Scale> = DrawOp::Image { id: 1, at: here };
    let batch: DrawOp<Pos, Scale> = DrawOp::Batch { id: 1, at: here };
    let sprite: DrawOp<Pos, Scale> = DrawOp::Sprite { id: 1, frame: 0, at: here };
    let flush: DrawOp<Pos, Scale> = DrawOp::Flush { id: 1 };
    assert!(!image.seen_through_camera());
    assert!(!batch.seen_through_camera());
    assert!(sprite.seen_through_camera());
    assert!(!flush.seen_through_camera());
    assert_eq!(image.placement(), Some(here));
    assert_eq!(batch.placement(), Some(here));
    assert_eq!(sprite.placement(), Some(here));
    assert_eq!(flush.placement(), None);
}

#[test]
fn dropping_a_passed_over_drawable_changes_nothing() {
    let full = vec![
        image(1, 1, 0.0),
        animation(0, 1, 5, 5, 1.0),
        image(0, 9, 2.0),
        animation(2, 1, 0, 5, 3.0),
        batch(1, 4, 4.0),
    ];
    let drawn = vec![image(1, 1, 0.0), animation(2, 1, 0, 5, 3.0)];
    let assets = catalog(&[1], &[], &[1]);
    let mut system = RenderingSystem::new();
    assert_eq!(system.run(&full, UNIT, &assets), system.run(&drawn, UNIT, &assets));
}
