use binserde::util::swap_at;
use binserde::ident::{Ident, Identifier};
use binserde::gamedata::{GameData, GameObjectBase, Block, Item, Registry, DependencyLink, GameObject};
use binserde::datasource::{normalize_path, OpenOptions, FileInfo, DirEntry};
use binserde::restree::FileTreePath;
use binserde::workspace::TreeChangeDispatcher;
use binserde::dedup::DedupContext;
use binserde::gamedata::AutoStatus;
use binserde::serde::Mode;

#[test]
fn test_swap_at() {
    let mut arr = vec![1, 2, 3, 4, 5, 6, 7, 8, 9, 10, 11, 12, 13, 14];
    swap_at(&mut arr, 3);
    assert_eq!(vec![4, 5, 6, 7, 8, 9, 10, 11, 12, 13, 14, 1, 2, 3], arr);
}

#[test]
fn swap_at_edges() {
    let mut v = vec![1, 2, 3];
    swap_at(&mut v, 0);
    assert_eq!(v, vec![1, 2, 3]);
    swap_at(&mut v, 3);
    assert_eq!(v, vec![1, 2, 3]);
}

#[test]
fn identifier_components() {
    let id = Identifier::from_components("mod", "stone");
    assert_eq!(id.into_inner(), "mod:stone");

    let id = Ident::new("mod:stone");
    assert_eq!(id.namespace(), "mod");
    assert_eq!(id.path(), "stone");
    assert_eq!(id.as_str(), "mod:stone");

    let bare = Ident::new("stone");
    assert_eq!(bare.namespace(), "minecraft");
    assert_eq!(bare.namespace_raw(), None);
    assert_eq!(bare.path(), "stone");
}

#[test]
fn identifier_set_namespace_and_path() {
    let mut id = Identifier::from_components("a", "b");
    id.set_namespace(Some("other"));
    assert_eq!(id.as_ident().as_str(), "other:b");
    id.set_path("c");
    assert_eq!(id.as_ident().as_str(), "other:c");
    id.set_namespace(None);
    assert_eq!(id.as_ident().as_str(), "c");
}

#[test]
fn ident_trim_default_namespace() {
    assert_eq!(Ident::new("minecraft:dirt").trim().as_str(), "dirt");
    assert_eq!(Ident::new("mod:dirt").trim().as_str(), "mod:dirt");
    assert_eq!(Ident::new("dirt").trim().as_str(), "dirt");
}

#[test]
fn registry_register_and_lookup() {
    let mut reg: Registry<Block> = Registry::new();
    let a = Block::new(GameObjectBase::new(Identifier::from_components("m", "a")));
    let b = Block::new(GameObjectBase::new(Identifier::from_components("m", "b")));
    assert!(reg.register(a).is_ok());
    assert!(reg.register(b).is_ok());
    // a second object under a taken identifier is refused
    let dup = Block::new(GameObjectBase::new(Identifier::from_components("m", "a")));
    assert!(reg.register(dup).is_err());
    assert_eq!(reg.len(), 2);

    assert!(reg.contains(&Ident::new("m:a")));
    assert!(!reg.contains(&Ident::new("m:c")));
    let found = reg.by_id(&Ident::new("m:b")).unwrap();
    assert_eq!(found.base().id().as_str(), "m:b");

    let ids = reg.ids();
    assert_eq!(ids.len(), 2);

    let gone = reg.deregister(&Ident::new("m:a")).unwrap();
    assert_eq!(gone.base().id().as_str(), "m:a");
    assert_eq!(reg.len(), 1);
    assert!(reg.deregister(&Ident::new("m:a")).is_err());
}

#[test]
fn game_object_marks() {
    let mut base = GameObjectBase::new(Identifier::from_components("m", "x"));
    assert!(!base.marked_for_deletion());
    base.mark_manual(false);
    assert!(base.marked_for_deletion());
    base.mark_auto(true);
    assert!(!base.marked_for_deletion());
    base.mark_auto(false);
    assert!(base.marked_for_deletion());

    let mut item = Item::new(GameObjectBase::auto(Identifier::from_components("m", "y")));
    assert!(!item.marked_for_deletion());
    item.mark_auto(false);
    assert!(item.marked_for_deletion());
}

#[test]
fn create_dummies_registers_referenced_objects() {
    let mut gd = GameData::new();
    let src = || DependencyLink::Language("ns".to_string(), "en_us".to_string());
    gd.refs.insert(src(), DependencyLink::Block(Identifier::from_components("m", "a")));
    gd.refs.insert(src(), DependencyLink::Item(Identifier::from_components("m", "b")));
    gd.refs.insert(src(), DependencyLink::Block(Identifier::from_components("m", "a")));
    gd.create_dummies();
    assert!(gd.blocks.contains(&Ident::new("m:a")));
    assert!(gd.items.contains(&Ident::new("m:b")));
    assert_eq!(gd.blocks.len(), 1);
    assert_eq!(gd.items.len(), 1);
    gd.reset();
    assert_eq!(gd.blocks.len(), 0);
}

#[test]
fn normalize_path_resolves_dots() {
    let comps: Vec<String> = ["a", ".", "b", "..", "c", ""].iter().map(|s| s.to_string()).collect();
    let r = normalize_path(&comps);
    assert_eq!(r, vec!["a".to_string(), "c".to_string()]);

    let above: Vec<String> = ["..", "..", "x"].iter().map(|s| s.to_string()).collect();
    assert_eq!(normalize_path(&above), vec!["x".to_string()]);
}

#[test]
fn open_options_builders() {
    let r = OpenOptions::reading();
    assert!(r.read && !r.write && !r.create && !r.append);
    let w = OpenOptions::writing(true);
    assert!(!w.read && w.write && w.create && !w.append);
    let mut o = OpenOptions::new();
    o.read(true);
    o.append(true);
    assert!(o.read && o.append && !o.write);

    let e = DirEntry {
        path: "assets/lang".to_string(),
        info: FileInfo { is_file: false, is_dir: true, is_symlink: false, read_only: false },
    };
    assert_eq!(e.path(), "assets/lang");
    assert!(e.info().is_dir());
    assert!(!e.info().is_file());
}

#[test]
fn file_tree_paths() {
    let root = FileTreePath(vec![]);
    assert!(root.is_root());
    assert!(root.parent().is_none());
    assert_eq!(root.path(), None);

    let child = root.child("assets").child("lang");
    assert!(!child.is_root());
    assert_eq!(child.full_path(), "/assets/lang");
    assert_eq!(child.path(), Some("lang"));
    assert_eq!(child.parent().unwrap().full_path(), "/assets");
}

#[test]
fn dispatcher_tracks_handles() {
    let mut d = TreeChangeDispatcher::new();
    d.subscribe(7);
    d.subscribe(9);
    d.unsubscribe(7);
    d.unsubscribe(7);
    d.cpp_subscribe(0); // the null handle is ignored
    d.cpp_subscribe(3);
    d.cpp_unsubscribe(3);
    // nothing left to observe but absence of panics; registration is
    // exercised through the contracts in the library itself
}

#[test]
fn dedup_context_interns_stably() {
    let mut ctx = DedupContext::new();
    assert_eq!(ctx.put_str("a"), 0);
    assert_eq!(ctx.put_str("b"), 1);
    assert_eq!(ctx.put_str("a"), 0);
    assert_eq!(ctx.len(), 2);
    assert_eq!(ctx.get_str(0), Some("a"));
    assert_eq!(ctx.get_str(1), Some("b"));
    assert_eq!(ctx.get_str(2), None);

    let mut out = Vec::new();
    ctx.write_to(&mut out);
    let (back, used) = DedupContext::read_from(&out, 0).unwrap();
    assert_eq!(used, out.len());
    assert_eq!(back.len(), 2);
    assert_eq!(back.get_str(0), Some("a"));
    assert_eq!(back.get_str(1), Some("b"));
}

#[test]
fn game_object_base_wire_roundtrip() {
    let ty = GameObjectBase::wire_ty();
    for (manual, auto) in [
        (true, AutoStatus::No),
        (false, AutoStatus::Yes),
        (true, AutoStatus::Deleted),
    ] {
        let mut base = GameObjectBase::new(Identifier::from_components("m", "thing"));
        base.manual = manual;
        base.auto = auto;
        let v = base.to_value();
        let buf = binserde::serialize_with(&v, &ty, Mode::dedup()).unwrap();
        let back_v = binserde::deserialize_with(&buf, &ty, Mode::dedup()).unwrap();
        let back = GameObjectBase::from_value(&back_v).unwrap();
        assert_eq!(back, base);
    }
}
