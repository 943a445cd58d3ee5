use svg2png::batch::output_name;

#[test]
fn svg_extension_becomes_png() {
    let out = output_name(&b"icon.svg".to_vec()).unwrap();
    assert_eq!(out, b"icon.png".to_vec());
}

#[test]
fn only_the_last_extension_is_replaced() {
    let out = output_name(&b"archive.tar.gz".to_vec()).unwrap();
    assert_eq!(out, b"archive.tar.png".to_vec());
}

#[test]
fn hidden_file_keeps_its_leading_dot_name() {
    let out = output_name(&b".hidden".to_vec()).unwrap();
    assert_eq!(out, b".hidden.png".to_vec());
}

#[test]
fn name_without_extension_gains_png() {
    let out = output_name(&b"noext".to_vec()).unwrap();
    assert_eq!(out, b"noext.png".to_vec());
}

#[test]
fn trailing_dot_is_dropped() {
    let out = output_name(&b"trailing.".to_vec()).unwrap();
    assert_eq!(out, b"trailing.png".to_vec());
}

#[test]
fn empty_name_has_no_output_name() {
    assert!(output_name(&Vec::new()).is_none());
}
