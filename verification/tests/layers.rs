use plurimus::layers::RenderLayers;

#[test]
fn absent_component_semantics_default_to_layer_zero() {
    assert_eq!(RenderLayers::default(), RenderLayers::layer(0));
    assert!(RenderLayers::default().intersects(RenderLayers::default()));
}

#[test]
fn distinct_layers_do_not_intersect() {
    assert!(!RenderLayers::layer(0).intersects(RenderLayers::layer(1)));
    assert!(RenderLayers::layer(63).intersects(RenderLayers::layer(63)));
}

#[test]
fn with_and_without_edit_single_layers() {
    let mask = RenderLayers::layer(0).with(5).without(0);
    assert!(mask.intersects(RenderLayers::layer(5)));
    assert!(!mask.intersects(RenderLayers::layer(0)));
}

#[test]
fn none_intersects_nothing() {
    assert!(!RenderLayers::none().intersects(RenderLayers::default()));
    assert!(!RenderLayers::none().intersects(RenderLayers::none()));
}

#[test]
fn intersection_is_symmetric_on_mixed_masks() {
    let a = RenderLayers::layer(1).with(7).with(40);
    let b = RenderLayers::layer(40);
    let c = RenderLayers::layer(2).with(3);
    assert_eq!(a.intersects(b), b.intersects(a));
    assert!(a.intersects(b));
    assert_eq!(a.intersects(c), c.intersects(a));
    assert!(!a.intersects(c));
}

#[test]
fn a_mask_meets_itself_unless_it_is_empty() {
    assert!(!RenderLayers::none().intersects(RenderLayers::none()));
    assert!(RenderLayers::layer(63).intersects(RenderLayers::layer(63)));
    assert!(RenderLayers::layer(3).with(9).intersects(RenderLayers::layer(3).with(9)));
    assert_eq!(RenderLayers::layer(4).without(4), RenderLayers::none());
}
