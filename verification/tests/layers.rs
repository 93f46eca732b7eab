use cubus::layers::{vec_of_size, Layers};

#[test]
fn vec_of_size_repeats_the_value() {
    assert_eq!(vec_of_size(3, false), vec![false, false, false]);
    assert_eq!(vec_of_size(2, 7u8), vec![7, 7]);
    assert_eq!(vec_of_size(0, true), Vec::<bool>::new());
}

#[test]
fn new_layers_have_no_flag_raised() {
    let layers = Layers::new(3);
    for axdir in ['X', 'x', 'Y', 'y', 'Z', 'z'] {
        for axval in 0..3u8 {
            assert!(!layers.has_flag(axdir, axval));
        }
    }
    assert_eq!(layers.xpos.len(), 3);
    assert_eq!(layers.zneg.len(), 3);
}

#[test]
fn set_flag_raises_one_flag() {
    for set_dir in ['X', 'x', 'Y', 'y', 'Z', 'z'] {
        for set_val in 0..3u8 {
            let mut layers = Layers::new(3);
            layers.set_flag(set_dir, set_val);
            for axdir in ['X', 'x', 'Y', 'y', 'Z', 'z'] {
                for axval in 0..3u8 {
                    assert_eq!(
                        layers.has_flag(axdir, axval),
                        axdir == set_dir && axval == set_val
                    );
                }
            }
        }
    }
}

#[test]
fn flags_stay_raised() {
    let mut layers = Layers::new(2);
    layers.set_flag('Y', 1);
    layers.set_flag('z', 0);
    layers.set_flag('Y', 1);
    assert!(layers.has_flag('Y', 1));
    assert!(layers.has_flag('z', 0));
    assert!(!layers.has_flag('Y', 0));
    assert!(!layers.has_flag('y', 1));
    assert!(!layers.has_flag('Z', 0));
}
