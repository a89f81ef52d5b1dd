use munera::assets::{AssetKind, AssetRecord, ImageAsset, ShaderAsset, ShaderType,
    register_asset_type};
use munera::cache::{AssetCache, LoadError, MemStore};
use munera::catalog::Catalog;
use munera::codec::{DecodeError, encode_bin};
use munera::ecs::{CompKind, CompRecord, NameComp, ParentComp, Registry, register_comp_type};
use munera::math::Vec2u;
use munera::scene::{decode_entity, encode_entity};

fn asset_catalog() -> Catalog<AssetKind> {
    let mut cat: Catalog<AssetKind> = Catalog::new();
    register_asset_type::<ImageAsset>(&mut cat, 1, "Image").unwrap();
    register_asset_type::<ShaderAsset>(&mut cat, 2, "Shader").unwrap();
    cat
}

fn comp_catalog() -> Catalog<CompKind> {
    let mut cat: Catalog<CompKind> = Catalog::new();
    register_comp_type::<NameComp>(&mut cat, 1, "NameComp").unwrap();
    register_comp_type::<ParentComp>(&mut cat, 2, "ParentComp").unwrap();
    cat
}

fn stored_shader_bytes(cat: &Catalog<AssetKind>) -> Vec<u8> {
    let rec = AssetRecord::Shader(ShaderAsset::new(ShaderType::Vertex, &vec![1, 2]));
    encode_bin(cat, &rec).unwrap()
}

#[test]
fn cache_load_idempotent() {
    let cat = asset_catalog();
    let mut store = MemStore::new();
    store.write("a.shader", stored_shader_bytes(&cat));
    let mut cache = AssetCache::new();
    let name = String::from("a.shader");

    assert!(cache.load_file(&mut store, &name, &cat).is_ok());
    assert_eq!(store.reads(), 1);
    assert!(cache.contains(&name));
    let first: &ShaderAsset = cache.borrow_asset(&name).unwrap();
    let first_code = first.code.clone();

    // the second load is a no-op success and does not re-read storage
    assert!(cache.load_file(&mut store, &name, &cat).is_ok());
    assert_eq!(store.reads(), 1);
    let second: &ShaderAsset = cache.borrow_asset(&name).unwrap();
    assert_eq!(second.code, first_code);
    assert_eq!(cache.len(), 1);
}

#[test]
fn cache_storage_error() {
    let cat = asset_catalog();
    let mut store = MemStore::new();
    let mut cache = AssetCache::new();
    let name = String::from("missing");
    match cache.load_file(&mut store, &name, &cat) {
        Err(LoadError::Storage(e)) => {
            assert!(!e.message().is_empty());
        },
        _ => assert!(false),
    }
    assert!(!cache.contains(&name));
    assert_eq!(cache.len(), 0);
}

#[test]
fn cache_decode_error_leaves_cache_unchanged() {
    let cat = asset_catalog();
    let mut store = MemStore::new();
    store.write("bad", vec![b'q', 0, 0]);
    let mut cache = AssetCache::new();
    let name = String::from("bad");
    match cache.load_file(&mut store, &name, &cat) {
        Err(LoadError::Decode(DecodeError::UnrecognizedDiscriminator)) => {},
        _ => assert!(false),
    }
    assert!(!cache.contains(&name));
    assert_eq!(cache.len(), 0);
}

#[test]
fn post_load_attaches_name() {
    let cat = asset_catalog();
    let mut img = ImageAsset::new();
    img.size = Vec2u::new(1, 1);
    img.data = vec![0, 0, 0, 0];
    let bytes = encode_bin(&cat, &AssetRecord::Image(img)).unwrap();
    let mut store = MemStore::new();
    store.write("hero.img", bytes);
    let mut cache = AssetCache::new();
    let name = String::from("hero.img");
    cache.load_file(&mut store, &name, &cat).unwrap();
    let loaded: &ImageAsset = cache.borrow_asset(&name).unwrap();
    assert_eq!(loaded.name(), "hero.img");
}

#[test]
fn narrowing_wrong_type_is_none() {
    let cat = asset_catalog();
    let mut store = MemStore::new();
    store.write("a.shader", stored_shader_bytes(&cat));
    let mut cache = AssetCache::new();
    let name = String::from("a.shader");
    cache.load_file(&mut store, &name, &cat).unwrap();
    // cached as a shader: narrowing to the image type fails predictably
    let wrong: Option<&ImageAsset> = cache.borrow_asset(&name);
    assert!(wrong.is_none());
    let right: Option<&ShaderAsset> = cache.borrow_asset(&name);
    assert!(right.is_some());
    // a name never loaded is not found at all
    let absent: Option<&ShaderAsset> = cache.borrow_asset(&String::from("nope"));
    assert!(absent.is_none());
}

#[test]
fn erased_access_and_enumeration() {
    let cat = asset_catalog();
    let mut store = MemStore::new();
    store.write("a.shader", stored_shader_bytes(&cat));
    let mut cache = AssetCache::new();
    let name = String::from("a.shader");
    cache.load_file(&mut store, &name, &cat).unwrap();
    match cache.borrow_asset_generic(&name) {
        Some(AssetRecord::Shader(_)) => {},
        _ => assert!(false),
    }
    let all = cache.borrow_all_assets();
    assert_eq!(all.len(), 1);
    assert_eq!(all[0].0, "a.shader");
    assert_eq!(cache.entry_at(0).0, "a.shader");
}

#[test]
fn blob_packs_every_entry() {
    let cat = asset_catalog();
    let mut store = MemStore::new();
    let payload = stored_shader_bytes(&cat);
    store.write("a.shader", payload.clone());
    let mut cache = AssetCache::new();
    let name = String::from("a.shader");
    cache.load_file(&mut store, &name, &cat).unwrap();
    let blob = cache.encode_blob(&cat).unwrap();
    let mut expected: Vec<u8> = Vec::new();
    expected.extend_from_slice(&1u64.to_le_bytes());
    expected.extend_from_slice(&8u64.to_le_bytes());
    expected.extend_from_slice(b"a.shader");
    expected.extend_from_slice(&(payload.len() as u64).to_le_bytes());
    expected.extend_from_slice(&payload);
    assert_eq!(blob, expected);
}

#[test]
fn entity_round_trip() {
    let cat = comp_catalog();
    let mut reg = Registry::new();
    let ent = reg.new_ent();
    reg.add_comp(&ent, CompRecord::Name(NameComp::new("bob")));
    reg.add_comp(&ent, CompRecord::Parent(ParentComp { parent: -3 }));
    let bytes = encode_entity(&cat, &reg, &ent);
    let expected = "{\"comps\":[{\"type\":\"NameComp\",\"value\":{\"name\":\"bob\"}},{\"type\":\"ParentComp\",\"value\":{\"parent\":-3}}]}";
    assert_eq!(bytes, expected.as_bytes().to_vec());
    let comps = decode_entity(&cat, &bytes).unwrap();
    assert_eq!(comps.len(), 2);
    match &comps[0] {
        CompRecord::Name(n) => assert!(n.0 == "bob"),
        _ => assert!(false),
    }
    match &comps[1] {
        CompRecord::Parent(p) => assert!(p.parent == -3),
        _ => assert!(false),
    }
}

#[test]
fn entity_empty_round_trip() {
    let cat = comp_catalog();
    let mut reg = Registry::new();
    let ent = reg.new_ent();
    let bytes = encode_entity(&cat, &reg, &ent);
    assert_eq!(bytes, "{\"comps\":[]}".as_bytes().to_vec());
    let comps = decode_entity(&cat, &bytes).unwrap();
    assert!(comps.is_empty());
}

#[test]
fn entity_unknown_attribute_is_hard_error() {
    let cat = comp_catalog();
    let buf = "{\"comps\":[{\"type\":\"Nope\",\"value\":{}}]}".as_bytes().to_vec();
    match decode_entity(&cat, &buf) {
        Err(DecodeError::UnknownType) => {},
        _ => assert!(false),
    }
}

#[test]
fn entity_restore_from_snapshot() {
    let cat = comp_catalog();
    let mut reg = Registry::new();
    let src = reg.new_ent();
    reg.add_comp(&src, CompRecord::Name(NameComp::new("copied")));
    let bytes = encode_entity(&cat, &reg, &src);
    let comps = decode_entity(&cat, &bytes).unwrap();
    let dst = reg.new_ent();
    for c in comps {
        let d = cat.find_by_kind(c.get_kind()).unwrap();
        d.ent_deserialize(&mut reg, &dst, &c);
    }
    match reg.get_comp(&dst, CompKind::Name) {
        Some(CompRecord::Name(n)) => assert!(n.0 == "copied"),
        _ => assert!(false),
    }
}

#[test]
fn replace_mutates_in_place_only() {
    let cat = asset_catalog();
    let mut store = MemStore::new();
    store.write("a.shader", stored_shader_bytes(&cat));
    let mut cache = AssetCache::new();
    let name = String::from("a.shader");
    cache.load_file(&mut store, &name, &cat).unwrap();
    // replacing an existing entry's interior succeeds
    let newer = AssetRecord::Shader(ShaderAsset::new(ShaderType::Fragment, &vec![5]));
    assert!(cache.replace_asset(&name, newer).is_ok());
    let sh: &ShaderAsset = cache.borrow_asset(&name).unwrap();
    assert!(sh.shader_type == ShaderType::Fragment);
    assert_eq!(cache.len(), 1);
    // a replace never creates an entry
    let other = AssetRecord::Shader(ShaderAsset::new(ShaderType::Vertex, &vec![]));
    assert!(cache.replace_asset(&String::from("fresh"), other).is_err());
    assert_eq!(cache.len(), 1);
}

#[test]
fn entity_name_with_escapes_round_trips() {
    let cat = comp_catalog();
    let mut reg = Registry::new();
    let ent = reg.new_ent();
    reg.add_comp(&ent, CompRecord::Name(NameComp::new("a\"b\\c")));
    let bytes = encode_entity(&cat, &reg, &ent);
    let expected = "{\"comps\":[{\"type\":\"NameComp\",\"value\":{\"name\":\"a\\\"b\\\\c\"}}]}";
    assert_eq!(bytes, expected.as_bytes().to_vec());
    let comps = decode_entity(&cat, &bytes).unwrap();
    match &comps[0] {
        CompRecord::Name(n) => assert!(n.0 == "a\"b\\c"),
        _ => assert!(false),
    }
}

#[test]
fn load_twice_reads_once() {
    let cat = asset_catalog();
    let mut store = MemStore::new();
    store.write("a.shader", stored_shader_bytes(&cat));
    let mut cache = AssetCache::new();
    let name = String::from("a.shader");
    assert!(cache.load_file_twice(&mut store, &name, &cat).is_ok());
    assert_eq!(store.reads(), 1);
    assert!(cache.contains(&name));
}

#[test]
fn load_error_describes_cause() {
    let cat = asset_catalog();
    let mut store = MemStore::new();
    let mut cache = AssetCache::new();
    match cache.load_file(&mut store, &String::from("missing"), &cat) {
        Err(e @ LoadError::Storage(_)) => {
            assert_eq!(e.describe(), "storage error: no bytes stored under this name");
        },
        _ => assert!(false),
    }
    store.write("bad", vec![b'z']);
    match cache.load_file(&mut store, &String::from("bad"), &cat) {
        Err(e @ LoadError::Decode(_)) => {
            assert_eq!(e.describe(), "decode error: unrecognized binary/text discriminator");
        },
        _ => assert!(false),
    }
}

#[test]
fn load_error_report_names_the_file() {
    let cat = asset_catalog();
    let mut store = MemStore::new();
    let mut cache = AssetCache::new();
    match cache.load_file(&mut store, &String::from("missing.img"), &cat) {
        Err(e) => assert_eq!(
            e.describe_for("missing.img"),
            "failed to load missing.img: storage error: no bytes stored under this name"
        ),
        _ => assert!(false),
    }
}
