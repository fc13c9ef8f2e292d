use pxls_render::action::{Action, ActionKind, Index};
use pxls_render::batch::{batch_ends, count_batches, floor_div, time_batches, Step};
use pxls_render::frame::{DynamicFrame, PixelFormat};
use pxls_render::palette::{colors_from_channels, default_palette};
use pxls_render::pixel::Rgba;
use pxls_render::region::Region;
use pxls_render::render::{canvas_from_bounds, relocate, MethodKind, RenderSession, Renderer};
use pxls_render::renderer::{
    color_lerp, RendererActivity, RendererAge, RendererHeat, RendererPlacement,
};

fn act(time: i64, x: u32, y: u32) -> Action {
    Action { time, user: None, x, y, index: Some(Index::Color(0)), kind: Some(ActionKind::Place) }
}

#[test]
fn time_batches_one_action_per_window() {
    let actions = vec![act(500, 0, 0), act(1500, 0, 0), act(2500, 0, 0)];
    assert_eq!(time_batches(&actions, 1000), vec![1, 2, 3]);
}

#[test]
fn time_batches_group_and_skip_empty_windows() {
    let actions = vec![act(0, 0, 0), act(999, 0, 0), act(1000, 0, 0), act(5000, 0, 0), act(5001, 0, 0)];
    assert_eq!(time_batches(&actions, 1000), vec![2, 3, 5]);
    assert_eq!(time_batches(&[], 1000), Vec::<usize>::new());
}

#[test]
fn count_batches_two_two_one() {
    assert_eq!(count_batches(5, 2), vec![2, 4, 5]);
    assert_eq!(count_batches(4, 2), vec![2, 4]);
    assert_eq!(count_batches(0, 2), Vec::<usize>::new());
    let actions: Vec<Action> = (0..5).map(|t| act(t, 0, 0)).collect();
    assert_eq!(batch_ends(&actions, Step::Pixels(2)), vec![2, 4, 5]);
    assert_eq!(batch_ends(&actions, Step::Pixels(i64::MAX)), vec![5]);
}

#[test]
fn floor_div_rounds_down() {
    assert_eq!(floor_div(-1, 1000), -1);
    assert_eq!(floor_div(-1000, 1000), -1);
    assert_eq!(floor_div(-1001, 1000), -2);
    assert_eq!(floor_div(1999, 1000), 1);
    assert_eq!(floor_div(i64::MIN, 1), i64::MIN);
}

#[test]
fn color_interpolation() {
    for &c in [[0u8, 0, 0, 0], [255, 255, 255, 255], [10, 100, 200, 7], [1, 2, 3, 4], [254, 127, 128, 0]].iter() {
        let color = Rgba(c);
        let [r, g, b, _] = c;
        let expected = Rgba([r, g, b, 255]);
        assert_eq!(color_lerp(color, 0, 4), Rgba([0, 0, 0, 255]));
        assert_eq!(color_lerp(color, 2, 4), expected);
        assert_eq!(color_lerp(color, 4, 4), Rgba([255, 255, 255, 255]));
        assert_eq!(color_lerp(color, 1, 4), Rgba([r / 2, g / 2, b / 2, 255]));
        assert_eq!(
            color_lerp(color, 3, 4),
            Rgba([r + (255 - r) / 2, g + (255 - g) / 2, b + (255 - b) / 2, 255])
        );
    }
}

#[test]
fn session_emits_background_then_each_batch() {
    let background = DynamicFrame::from_pixel(PixelFormat::Rgba, 2, 2, Rgba([255, 255, 255, 255]));
    let actions = vec![act(500, 0, 0), act(1500, 1, 0), act(2500, 0, 1)];
    let renderer = Renderer::new(MethodKind::Virgin, &background, default_palette(), Step::Time(1000));
    let mut s = RenderSession::new(renderer, background, actions, Step::Time(1000));
    let mut frames = vec![s.frame().as_formatted_raw().to_vec()];
    while s.advance() {
        frames.push(s.frame().as_formatted_raw().to_vec());
    }
    assert!(s.is_done());
    assert_eq!(frames.len(), 4);
    assert_eq!(&frames[1][0..4], &[0, 0, 0, 255]);
    assert_eq!(&frames[1][4..8], &[255, 255, 255, 255]);
    assert_eq!(&frames[2][4..8], &[0, 0, 0, 255]);
    assert_eq!(&frames[3][8..12], &[0, 0, 0, 255]);
    assert_eq!(&frames[3][12..16], &[255, 255, 255, 255]);
}

#[test]
fn normal_style_uses_palette_then_background() {
    let background = DynamicFrame::from_pixel(PixelFormat::Rgba, 2, 1, Rgba([9, 9, 9, 255]));
    let palette = vec![Rgba([1, 2, 3, 255])];
    let mut frame = background.clone_frame();
    let r = Renderer::new(MethodKind::Normal, &background, palette, Step::Pixels(1));
    let mut r = r;
    let mut a = act(1, 0, 0);
    let mut b = act(2, 1, 0);
    b.index = Some(Index::Color(5));
    r.update(&[a.clone()], &mut frame);
    a.index = Some(Index::Transparent);
    r.update(&[b], &mut frame);
    assert_eq!(frame.get_pixel_checked(0, 0), Some(Rgba([1, 2, 3, 255])));
    assert_eq!(frame.get_pixel_checked(1, 0), Some(Rgba([9, 9, 9, 255])));
    r.update(&[a], &mut frame);
    assert_eq!(frame.get_pixel_checked(0, 0), Some(Rgba([9, 9, 9, 255])));
}

#[test]
fn action_style_colors_by_kind() {
    let background = DynamicFrame::from_pixel(PixelFormat::Rgb, 1, 1, Rgba([9, 9, 9, 255]));
    let mut frame = background.clone_frame();
    let mut r = Renderer::new(MethodKind::Action, &background, vec![], Step::Pixels(1));
    let mut a = act(1, 0, 0);
    a.kind = Some(ActionKind::Undo);
    r.update(&[a], &mut frame);
    assert_eq!(frame.get_pixel_checked(0, 0), Some(Rgba([255, 0, 255, 255])));
}

#[test]
fn heat_full_then_fading_then_black() {
    let mut frame = DynamicFrame::from_pixel(PixelFormat::Rgba, 1, 1, Rgba([0, 0, 0, 255]));
    let mut heat = RendererHeat::new(1, 1, 1000, 4000);
    heat.update(&[act(1000, 0, 0)], &mut frame);
    assert_eq!(frame.get_pixel_checked(0, 0), Some(Rgba([205, 92, 92, 255])));
    heat.update(&[], &mut frame);
    assert_eq!(frame.get_pixel_checked(0, 0), Some(Rgba([205, 92, 92, 255])));
    let mut other = DynamicFrame::from_pixel(PixelFormat::Rgba, 2, 1, Rgba([0, 0, 0, 255]));
    let mut heat2 = RendererHeat::new(2, 1, 1000, 4000);
    heat2.update(&[act(1000, 0, 0)], &mut other);
    heat2.update(&[act(3000, 1, 0)], &mut other);
    // the boundary is now 4000: the first pixel is 3000 old of a 4000 window
    assert_eq!(other.get_pixel_checked(0, 0), Some(Rgba([51, 23, 23, 255])));
    assert_eq!(other.get_pixel_checked(1, 0), Some(Rgba([153, 69, 69, 255])));
    heat2.update(&[act(5000, 1, 0)], &mut other);
    assert_eq!(other.get_pixel_checked(0, 0), Some(Rgba([0, 0, 0, 255])));
}

#[test]
fn activity_depends_on_counts_not_order() {
    let mut f1 = DynamicFrame::from_pixel(PixelFormat::Rgba, 2, 1, Rgba([0, 0, 0, 255]));
    let mut f2 = f1.clone_frame();
    let mut r1 = RendererActivity::new(2, 1);
    let mut r2 = RendererActivity::new(2, 1);
    let a: Vec<Action> = (0..12).map(|i| act(i, (i % 3 == 0) as u32, 0)).collect();
    let mut b = a.clone();
    b.reverse();
    r1.update(&a, &mut f1);
    r2.update(&b, &mut f2);
    assert_eq!(f1.as_formatted_raw(), f2.as_formatted_raw());
    // 8 visits at (0, 0): 80% of the way from the first stop to the second
    assert_eq!(f1.get_pixel_checked(0, 0), Some(Rgba([27, 129, 174, 255])));
    // 4 visits at (1, 0)
    assert_eq!(f1.get_pixel_checked(1, 0), Some(Rgba([19, 75, 135, 255])));
}

#[test]
fn age_spans_oldest_to_newest() {
    let mut frame = DynamicFrame::from_pixel(PixelFormat::Rgba, 3, 1, Rgba([9, 9, 9, 255]));
    let mut age = RendererAge::new(3, 1);
    age.update(&[act(100, 0, 0), act(150, 1, 0), act(200, 0, 0)], &mut frame);
    assert_eq!(frame.get_pixel_checked(0, 0), Some(Rgba([255, 255, 255, 255])));
    assert_eq!(frame.get_pixel_checked(1, 0), Some(Rgba([0, 0, 255, 255])));
    assert_eq!(frame.get_pixel_checked(2, 0), Some(Rgba([0, 0, 0, 255])));
}

#[test]
fn placement_phase_colors() {
    let mut frame = DynamicFrame::from_pixel(PixelFormat::Rgba, 2, 1, Rgba([9, 9, 9, 255]));
    let p = RendererPlacement::new(Rgba([255, 0, 0, 255]), 1000);
    p.update(&[act(1, 0, 0), act(501, 1, 0)], &mut frame);
    assert_eq!(frame.get_pixel_checked(0, 0), Some(Rgba([0, 0, 0, 255])));
    assert_eq!(frame.get_pixel_checked(1, 0), Some(Rgba([255, 0, 0, 255])));
}

#[test]
fn canvas_and_relocation() {
    let bounds = Region::new(10, 20, 14, 22).unwrap();
    assert_eq!(canvas_from_bounds(&bounds), ((4, 2), (10, 20)));
    let mut a = act(1, 12, 21);
    a.user = Some(pxls_render::action::Identifier::Username("abcdefghijklmnopqrstuvwxyz012345".to_string()));
    let moved = relocate(&[a.clone()], 10, 20).unwrap();
    assert_eq!((moved[0].x, moved[0].y), (2, 1));
    assert_eq!(moved[0].user, a.user);
    assert!(relocate(&[act(1, 9, 21)], 10, 20).is_none());
}

#[test]
fn default_palette_has_32_colors() {
    let p = default_palette();
    assert_eq!(p.len(), 32);
    assert_eq!(p[0], Rgba([0, 0, 0, 255]));
    assert_eq!(p[31], Rgba([116, 12, 0, 255]));
}

#[test]
fn activity_independent_of_batching() {
    let a: Vec<Action> = (0..9).map(|i| act(i, (i % 2) as u32, 0)).collect();
    let mut f1 = DynamicFrame::from_pixel(PixelFormat::Rgba, 2, 1, Rgba([0, 0, 0, 255]));
    let mut f2 = f1.clone_frame();
    let mut r1 = RendererActivity::new(2, 1);
    let mut r2 = RendererActivity::new(2, 1);
    r1.update(&a[..4], &mut f1);
    r1.update(&a[4..], &mut f1);
    let mut b = a.clone();
    b.reverse();
    r2.update(&b[..7], &mut f2);
    r2.update(&b[7..], &mut f2);
    assert_eq!(f1.as_formatted_raw(), f2.as_formatted_raw());
}

#[test]
fn palette_from_channels() {
    assert_eq!(colors_from_channels(&[1, 2, 3, 4, 5, 6, 7, 8]), Some(vec![Rgba([1, 2, 3, 4]), Rgba([5, 6, 7, 8])]));
    assert_eq!(colors_from_channels(&[1, 2, 3]), None);
    assert_eq!(colors_from_channels(&[]), None);
    assert_eq!(colors_from_channels(&[1, 2, 3, 256]), None);
}
