use tunnelclient::ab::{is_software, pick, sweep_layers};

#[test]
fn without_a_choice_the_biggest_shapes_come_first() {
    // Shape 1 is biggest; 0 and 3 tie and keep their own order.
    let fills = [5, 9, 1, 5];
    assert_eq!(pick(&fills, &[], 4), vec![1, 0, 3, 2]);
    assert_eq!(pick(&fills, &[], 2), vec![1, 0]);
    assert_eq!(pick(&fills, &[], 6), vec![1, 0, 3, 2, 1, 0]);
    assert_eq!(pick(&fills, &[], 0), Vec::<usize>::new());
}

#[test]
fn with_no_shapes_nothing_is_picked() {
    assert_eq!(pick(&[], &[], 3), Vec::<usize>::new());
}

#[test]
fn a_choice_is_repeated_and_unknown_shapes_are_skipped() {
    let fills = [5, 9, 1];
    assert_eq!(pick(&fills, &[2, 7, 0], 5), vec![2, 0, 2, 0, 2]);
    assert_eq!(pick(&fills, &[1], 3), vec![1, 1, 1]);
    assert_eq!(pick(&fills, &[9], 0), Vec::<usize>::new());
}

#[test]
fn software_drivers_are_recognised_whatever_their_case() {
    assert!(is_software("llvmpipe (LLVM 15.0.7, 256 bits)", "Mesa"));
    assert!(is_software("LLVMPIPE (LLVM 15.0.7, 256 bits)", "Mesa/X.org"));
    assert!(is_software("Google SwiftShader", "Google Inc."));
    assert!(is_software("Microsoft Basic Render Driver", "Microsoft Corporation"));
    assert!(is_software("Software", "Rasterizer Inc."));
    assert!(!is_software("NVIDIA GeForce RTX 3060/PCIe/SSE2", "NVIDIA Corporation"));
    assert!(!is_software("AMD Radeon Graphics (radeonsi, renoir)", "AMD"));
}

#[test]
fn a_sweep_runs_each_positive_layer_count_once_smallest_first() {
    assert_eq!(sweep_layers(vec![8, 1, 0, 4, 8, 2]), Ok(vec![1, 2, 4, 8]));
    assert_eq!(sweep_layers(vec![3]), Ok(vec![3]));
    assert_eq!(sweep_layers(vec![0, 0]), Err("no layer counts to sweep".to_string()));
    assert_eq!(sweep_layers(Vec::new()), Err("no layer counts to sweep".to_string()));
}
