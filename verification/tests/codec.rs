use munera::assets::{AssetExt, AssetKind, AssetRecord, ImageAsset, ShaderAsset, ShaderType,
    register_asset_type};
use munera::catalog::Catalog;
use munera::codec::{DecodeError, decode, encode_bin, encode_text};
use munera::math::Vec2u;

fn alpha_beta_catalog() -> Catalog<AssetKind> {
    let mut cat: Catalog<AssetKind> = Catalog::new();
    register_asset_type::<ImageAsset>(&mut cat, 1, "Alpha").unwrap();
    register_asset_type::<ShaderAsset>(&mut cat, 2, "Beta").unwrap();
    cat
}

fn sample_image() -> ImageAsset {
    let mut img = ImageAsset::new();
    img.size = Vec2u::new(2, 1);
    img.data = vec![1, 2, 3, 4, 5, 6, 7, 8];
    img
}

#[test]
fn scenario_two_types() {
    let cat = alpha_beta_catalog();

    // encode an Alpha instance to binary; decoding yields an Alpha
    let rec = AssetRecord::Image(sample_image());
    let bin = encode_bin(&cat, &rec).unwrap();
    let back = decode(&cat, &bin).unwrap();
    let img = ImageAsset::narrow(&back);
    assert!(img.is_some());
    let img = img.unwrap();
    assert!(img.size == Vec2u::new(2, 1));
    assert!(img.data == vec![1, 2, 3, 4, 5, 6, 7, 8]);

    // attempting to narrow it to Beta fails
    assert!(ShaderAsset::narrow(&back).is_none());

    // encode the same instance to text; decoding reproduces the same Alpha
    let txt = encode_text(&cat, &rec).unwrap();
    let expected = "t{\"type\":\"Alpha\",\"asset\":{\"size\":{\"x\":2,\"y\":1},\"data\":[1,2,3,4,5,6,7,8]}}";
    assert_eq!(txt, expected.as_bytes().to_vec());
    let back2 = decode(&cat, &txt).unwrap();
    let img2 = ImageAsset::narrow(&back2).unwrap();
    assert!(img2.size == Vec2u::new(2, 1));
    assert!(img2.data == vec![1, 2, 3, 4, 5, 6, 7, 8]);

    // an unregistered type tag is a decode error, not a default value
    let gamma = "t{\"type\":\"Gamma\",\"asset\":{}}".as_bytes().to_vec();
    match decode(&cat, &gamma) {
        Err(DecodeError::UnknownType) => {},
        _ => assert!(false),
    }
}

#[test]
fn binary_wire_format_exact() {
    let cat = alpha_beta_catalog();
    let shader = ShaderAsset::new(ShaderType::Fragment, &vec![9, 8, 7]);
    let rec = AssetRecord::Shader(shader);
    let bin = encode_bin(&cat, &rec).unwrap();
    let mut expected: Vec<u8> = Vec::new();
    expected.push(b'b');
    expected.extend_from_slice(&4u64.to_le_bytes()); // display name length
    expected.extend_from_slice(b"Beta");
    expected.push(2); // fragment stage wire code
    expected.extend_from_slice(&3u64.to_le_bytes()); // bytecode length
    expected.extend_from_slice(&[9, 8, 7]);
    assert_eq!(bin, expected);
    let back = decode(&cat, &bin).unwrap();
    let sh = ShaderAsset::narrow(&back).unwrap();
    assert!(sh.shader_type == ShaderType::Fragment);
    assert!(sh.code == vec![9, 8, 7]);
}

#[test]
fn binary_trailing_bytes_ignored() {
    let cat = alpha_beta_catalog();
    let rec = AssetRecord::Shader(ShaderAsset::new(ShaderType::Vertex, &vec![]));
    let mut bin = encode_bin(&cat, &rec).unwrap();
    bin.push(0xff);
    assert!(decode(&cat, &bin).is_ok());
}

#[test]
fn discriminator_dispatch() {
    let cat = alpha_beta_catalog();
    // empty buffer
    match decode(&cat, &Vec::new()) {
        Err(DecodeError::UnrecognizedDiscriminator) => {},
        _ => assert!(false),
    }
    // a first byte that selects neither format
    match decode(&cat, &vec![b'x', 1, 2, 3]) {
        Err(DecodeError::UnrecognizedDiscriminator) => {},
        _ => assert!(false),
    }
    // a binary buffer is never routed to the text reader: its payload is
    // read as binary and rejected as truncated, not as a missing text field
    match decode(&cat, &vec![b'b']) {
        Err(DecodeError::Malformed) => {},
        _ => assert!(false),
    }
}

#[test]
fn missing_type_field() {
    let cat = alpha_beta_catalog();
    let buf = "t{\"nope\":1}".as_bytes().to_vec();
    match decode(&cat, &buf) {
        Err(DecodeError::MissingTypeField) => {},
        _ => assert!(false),
    }
    let buf2 = "tnot an object".as_bytes().to_vec();
    match decode(&cat, &buf2) {
        Err(DecodeError::Malformed) => {},
        _ => assert!(false),
    }
}

#[test]
fn unknown_type_binary() {
    let cat = alpha_beta_catalog();
    let mut buf: Vec<u8> = Vec::new();
    buf.push(b'b');
    buf.extend_from_slice(&5u64.to_le_bytes());
    buf.extend_from_slice(b"Gamma");
    match decode(&cat, &buf) {
        Err(DecodeError::UnknownType) => {},
        _ => assert!(false),
    }
}

#[test]
fn encode_unregistered_type_fails() {
    let mut cat: Catalog<AssetKind> = Catalog::new();
    register_asset_type::<ImageAsset>(&mut cat, 1, "Alpha").unwrap();
    let rec = AssetRecord::Shader(ShaderAsset::new(ShaderType::Vertex, &vec![]));
    assert!(encode_bin(&cat, &rec).is_err());
    assert!(encode_text(&cat, &rec).is_err());
}

#[test]
fn image_text_size_mismatch_rejected() {
    let cat = alpha_beta_catalog();
    // 2 x 1 pixels imply 8 data bytes; 3 do not match
    let buf = "t{\"type\":\"Alpha\",\"asset\":{\"size\":{\"x\":2,\"y\":1},\"data\":[1,2,3]}}"
        .as_bytes()
        .to_vec();
    match decode(&cat, &buf) {
        Err(DecodeError::Malformed) => {},
        _ => assert!(false),
    }
}

#[test]
fn quoted_name_escapes_round_trip() {
    let mut cat: Catalog<AssetKind> = Catalog::new();
    register_asset_type::<ShaderAsset>(&mut cat, 5, "odd\"name\\here").unwrap();
    let rec = AssetRecord::Shader(ShaderAsset::new(ShaderType::Vertex, &vec![1]));
    let txt = encode_text(&cat, &rec).unwrap();
    let back = decode(&cat, &txt).unwrap();
    assert!(ShaderAsset::narrow(&back).is_some());
}

#[test]
fn describe_names_each_error() {
    assert_eq!(
        DecodeError::UnrecognizedDiscriminator.describe(),
        "unrecognized binary/text discriminator"
    );
    assert_eq!(DecodeError::UnknownType.describe(), "unrecognized type name");
    assert_eq!(DecodeError::MissingTypeField.describe(), "missing required field: type");
    assert_eq!(DecodeError::Malformed.describe(), "malformed or truncated payload");
}

#[test]
fn capability_interface() {
    let img = ImageAsset::make_default();
    assert!(img.size == Vec2u::new(0, 0));
    assert!(img.data.is_empty());
    let rec = img.into_record();
    assert!(rec.get_kind() == AssetKind::Image);
    assert!(ImageAsset::narrow(&rec).is_some());
    assert!(ShaderAsset::narrow(&rec).is_none());
    let fresh = AssetRecord::make_default(AssetKind::Shader);
    assert!(fresh.get_kind() == AssetKind::Shader);
    match fresh {
        AssetRecord::Shader(sh) => {
            assert!(sh.shader_type == ShaderType::Vertex);
            assert!(sh.code.is_empty());
        },
        _ => assert!(false),
    }
}
