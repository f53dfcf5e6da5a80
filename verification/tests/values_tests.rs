use nusamai::texture::CroppedTexture;
use nusamai::values::Code;
use nusamai::values::LocalId;
use nusamai::values::Point;

#[test]
fn code_keeps_value_and_code() {
    let code = Code::new("Residential".to_string(), "211".to_string());
    assert_eq!(code.value(), "Residential");
    assert_eq!(code.code(), "211");
}

#[test]
fn local_id_wraps_its_index() {
    let id = LocalId::new(42);
    assert_eq!(id.value(), 42);
    assert_eq!(LocalId::new(0).value(), 0);
}

#[test]
fn point_values_are_equal() {
    assert_eq!(Point::default(), Point {});
}

#[test]
fn cropped_texture_edges() {
    let tex = CroppedTexture {
        image_path: "textures/roof.png".to_string(),
        u: 10,
        v: 20,
        width: 30,
        height: 40,
    };
    assert_eq!(tex.right(), 40);
    assert_eq!(tex.bottom(), 60);
}
