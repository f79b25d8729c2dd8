use bfjit::jit::JIT;

#[test]
fn emit_appends() {
    let mut jit = JIT::new();
    assert_eq!(jit.len(), 0);
    jit.emit(&[1, 2, 3]);
    jit.emit(&[4]);
    assert_eq!(jit.len(), 4);
}

#[test]
fn zone_size_rounds_strictly_up() {
    let mut jit = JIT::new();
    assert_eq!(jit.zone_size(), 4096);
    jit.emit(&vec![0; 4095]);
    assert_eq!(jit.zone_size(), 4096);
    jit.emit(&[0]);
    // exactly one page of code still needs a strictly larger region
    assert_eq!(jit.zone_size(), 8192);
}

#[test]
fn zone_image_pads_with_ret() {
    let mut jit = JIT::new();
    jit.emit(&[0xAA, 0xBB]);
    let image = jit.zone_image();
    assert_eq!(image.len(), 4096);
    assert_eq!(image[0], 0xAA);
    assert_eq!(image[1], 0xBB);
    assert!(image[2..].iter().all(|&b| b == 0xC3));
}

#[test]
fn zone_image_of_empty_buffer_is_all_ret() {
    let jit = JIT::new();
    let image = jit.zone_image();
    assert_eq!(image.len(), 4096);
    assert!(image.iter().all(|&b| b == 0xC3));
}
