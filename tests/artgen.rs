use artgen::asset::{build_metadata, build_selection_metadata, composite, image_file_name, metadata_file_name, Attribute};
use artgen::catalog::{
    load_catalog, name_le, parse_catalog, sort_listings, Catalog, DirListing,
    FileListing,
};
use artgen::error::ArtGenError;
use artgen::generator::{run, Generator, SlotStep, MAX_RETRIES};
use artgen::naming::{file_stem, parse_collection_size, parse_unique_flag, split_weight_prefix};
use artgen::select::{ChosenLayer, Select};

fn dir(name: &str, files: &[&str]) -> DirListing {
    DirListing {
        name: name.to_string(),
        files: files
            .iter()
            .map(|f| FileListing { name: f.to_string(), path: format!("layers/{}/{}", name, f) })
            .collect(),
    }
}

fn catalog(dirs: Vec<DirListing>) -> Catalog {
    match load_catalog(dirs) {
        Ok(c) => c,
        Err(e) => panic!("catalog refused: {:?}", e),
    }
}

fn two_combinations() -> Catalog {
    catalog(vec![
        dir("02eyes", &["01big.png"]),
        dir("01background", &["01red.png", "01blue.png"]),
    ])
}

#[test]
fn collection_size_accepts_positive_decimal() {
    assert_eq!(parse_collection_size("5"), Ok(5));
    assert_eq!(parse_collection_size("0042"), Ok(42));
    assert_eq!(parse_collection_size("18446744073709551615"), Ok(u64::MAX));
    assert_eq!(parse_collection_size("+5"), Ok(5));
}

#[test]
fn collection_size_rejects_other_text() {
    for s in ["", "0", "00", "-3", "+", "++5", "+-5", "+0", "4x", "five", "18446744073709551616"] {
        assert_eq!(parse_collection_size(s), Err(ArtGenError::InvalidCollectionSize), "{}", s);
    }
}

#[test]
fn unique_flag_values() {
    assert_eq!(parse_unique_flag("yes"), Some(true));
    assert_eq!(parse_unique_flag("y"), Some(true));
    assert_eq!(parse_unique_flag("no"), Some(false));
    assert_eq!(parse_unique_flag("n"), Some(false));
    assert_eq!(parse_unique_flag("maybe"), None);
    assert_eq!(parse_unique_flag(""), None);
}

#[test]
fn weight_prefix_splits_name() {
    assert_eq!(split_weight_prefix("01background"), Some((1, "background".to_string())));
    assert_eq!(split_weight_prefix("99"), Some((99, String::new())));
    assert_eq!(split_weight_prefix("7x"), None);
    assert_eq!(split_weight_prefix("a1b"), None);
    assert_eq!(split_weight_prefix("1"), None);
}

#[test]
fn file_stem_drops_last_extension() {
    assert_eq!(file_stem("01red.png"), "01red");
    assert_eq!(file_stem("01a.b.png"), "01a.b");
    assert_eq!(file_stem("01noext"), "01noext");
    assert_eq!(file_stem(".hidden"), ".hidden");
    assert_eq!(file_stem("trailing."), "trailing");
}

#[test]
fn names_compare_by_character() {
    assert!(name_le("01background", "02eyes"));
    assert!(!name_le("02eyes", "01background"));
    assert!(name_le("01", "01a"));
    assert!(!name_le("01a", "01"));
    assert!(name_le("same", "same"));
}

#[test]
fn listings_sorted_by_name() {
    let sorted = sort_listings(vec![dir("03mouth", &[]), dir("01base", &[]), dir("02eyes", &[])]);
    let names: Vec<&str> = sorted.iter().map(|d| d.name.as_str()).collect();
    assert_eq!(names, vec!["01base", "02eyes", "03mouth"]);
}

#[test]
fn catalog_orders_and_labels_categories() {
    let c = two_combinations();
    assert_eq!(c.categories.len(), 2);
    assert_eq!(c.categories[0].label, "background");
    assert_eq!(c.categories[1].label, "eyes");
    let red = &c.categories[0].entries[0];
    assert_eq!(red.trait_label, "red");
    assert_eq!(red.category_label, "background");
    assert_eq!(red.weight, 1);
    assert_eq!(red.source_path, "layers/01background/01red.png");
}

#[test]
fn catalog_errors() {
    assert_eq!(load_catalog(vec![]).err(), Some(ArtGenError::InsufficientLayers));
    assert_eq!(
        load_catalog(vec![dir("background", &["01red.png"])]).err(),
        Some(ArtGenError::IncorrectDirectoryConvention("background".to_string()))
    );
    assert_eq!(
        load_catalog(vec![dir("01background", &["red.png"])]).err(),
        Some(ArtGenError::IncorrectFileConvention("layers/01background/red.png".to_string()))
    );
    assert_eq!(
        load_catalog(vec![dir("01background", &["00red.png", "00blue.png"])]).err(),
        Some(ArtGenError::EmptyDistribution("01background".to_string()))
    );
    assert_eq!(
        load_catalog(vec![dir("01background", &[])]).err(),
        Some(ArtGenError::EmptyDistribution("01background".to_string()))
    );
}

#[test]
fn parse_catalog_reports_first_bad_directory() {
    let dirs = vec![dir("01ok", &["01a.png"]), dir("xx", &[]), dir("yy", &[])];
    assert_eq!(
        parse_catalog(&dirs).err(),
        Some(ArtGenError::IncorrectDirectoryConvention("xx".to_string()))
    );
}

#[test]
fn sampling_follows_weights() {
    let c = catalog(vec![dir("01background", &["01red.png", "09blue.png", "00green.png"])]);
    let cat = &c.categories[0];
    let mut rng = rand::thread_rng();
    let trials = 20000;
    let mut counts = [0usize; 3];
    for _ in 0..trials {
        counts[cat.draw(&mut rng)] += 1;
    }
    assert_eq!(counts[2], 0);
    let blue = counts[1] as f64 / trials as f64;
    assert!((blue - 0.9).abs() < 0.02, "frequency {}", blue);
}

#[test]
fn single_asset_scenario() {
    let c = catalog(vec![
        dir("01background", &["01red.png", "02blue.png"]),
        dir("02eyes", &["01big.png"]),
    ]);
    let out = run(&c, 0, 1, true, MAX_RETRIES);
    assert!(out.error.is_none());
    assert_eq!(out.assets.len(), 1);
    let a = &out.assets[0];
    assert_eq!(a.id, 0);
    assert_eq!(image_file_name(a.id), "0.png");
    let attrs = &a.asset.attributes;
    assert_eq!(attrs.len(), 2);
    assert_eq!(attrs[0].trait_type, "eyes");
    assert_eq!(attrs[0].value, "big");
    assert_eq!(attrs[1].trait_type, "background");
    assert!(attrs[1].value == "red" || attrs[1].value == "blue");
    assert_eq!(a.asset.layer_paths[1], "layers/02eyes/01big.png");
}

#[test]
fn too_few_combinations_fail() {
    let c = two_combinations();
    let out = run(&c, 0, 3, true, MAX_RETRIES);
    assert_eq!(out.error, Some(ArtGenError::InsufficientLayers));
    assert_eq!(out.assets.len(), 2);
    assert_ne!(out.assets[0].asset.key, out.assets[1].asset.key);
}

#[test]
fn unique_run_keys_differ() {
    let c = catalog(vec![
        dir("01background", &["01red.png", "01blue.png", "01green.png"]),
        dir("02eyes", &["01big.png", "01small.png"]),
    ]);
    let out = run(&c, 0, 2, true, MAX_RETRIES);
    if out.error.is_none() {
        assert_eq!(out.assets.len(), 2);
        assert_ne!(out.assets[0].asset.key, out.assets[1].asset.key);
    } else {
        assert_eq!(out.error, Some(ArtGenError::InsufficientLayers));
    }
}

#[test]
fn duplicates_allowed_without_uniqueness() {
    let c = catalog(vec![dir("01background", &["01red.png"]), dir("02eyes", &["01big.png"])]);
    let out = run(&c, 0, 5, false, MAX_RETRIES);
    assert!(out.error.is_none());
    assert_eq!(out.assets.len(), 5);
    for a in &out.assets {
        assert_eq!(a.asset.key, vec![0, 0]);
    }
}

#[test]
fn ids_continue_from_offset() {
    let c = two_combinations();
    let out = run(&c, 7, 2, true, MAX_RETRIES);
    assert!(out.error.is_none());
    let ids: Vec<u64> = out.assets.iter().map(|a| a.id).collect();
    assert_eq!(ids, vec![7, 8]);
}

#[test]
fn generator_stops_after_retries() {
    let c = catalog(vec![dir("01background", &["01red.png"])]);
    let mut rng = rand::thread_rng();
    let mut g = Generator::new(0, 2, true, MAX_RETRIES);
    let first = g.next_asset(&c, &mut rng).unwrap().unwrap();
    assert_eq!(first.id, 0);
    assert!(!g.accepts(&vec![0]));
    assert!(g.accepts(&vec![1]));
    assert_eq!(g.next_asset(&c, &mut rng).err(), Some(ArtGenError::InsufficientLayers));
    assert_eq!(g.produced, 1);
    assert_eq!(MAX_RETRIES, 10);
}

#[test]
fn finished_generator_yields_nothing() {
    let c = two_combinations();
    let mut rng = rand::thread_rng();
    let mut g = Generator::new(3, 0, true, MAX_RETRIES);
    assert!(g.is_done());
    assert!(g.next_asset(&c, &mut rng).unwrap().is_none());
}

#[test]
fn metadata_fields() {
    let attrs = vec![Attribute { trait_type: "eyes".to_string(), value: "big".to_string() }];
    let m = build_metadata(12, attrs);
    assert_eq!(m.name, "<my_project> #12");
    assert_eq!(m.description, "<my_project> is a cultural revolution.");
    assert_eq!(m.image, "ipfs://hash/12.png");
    assert_eq!(m.attributes.len(), 1);
    assert_eq!(m.attributes[0].value, "big");
    assert_eq!(metadata_file_name(0), "0");
    assert_eq!(metadata_file_name(305), "305");
    assert_eq!(image_file_name(41), "41.png");
}

#[test]
fn composite_paints_layers_in_order() {
    let base = image::DynamicImage::ImageRgba8(image::RgbaImage::from_pixel(
        2,
        2,
        image::Rgba([255, 0, 0, 255]),
    ));
    let mut top = image::RgbaImage::from_pixel(2, 2, image::Rgba([0, 0, 0, 0]));
    top.put_pixel(0, 0, image::Rgba([0, 0, 255, 255]));
    let mut upper = image::RgbaImage::from_pixel(2, 2, image::Rgba([0, 0, 0, 0]));
    upper.put_pixel(0, 0, image::Rgba([0, 255, 0, 255]));
    let layers = vec![image::DynamicImage::ImageRgba8(top), image::DynamicImage::ImageRgba8(upper)];
    let out = composite(base, &layers).to_rgba8();
    assert_eq!(out.get_pixel(0, 0), &image::Rgba([0, 255, 0, 255]));
    assert_eq!(out.get_pixel(1, 1), &image::Rgba([255, 0, 0, 255]));
}

#[test]
fn select_describes_chosen_layers() {
    let layer = |d: &str, f: &str| ChosenLayer { dir_name: d.to_string(), file_name: f.to_string() };
    let attrs = Select::attributes(&vec![layer("01background", "02blue.png"), layer("02eyes", "01big.png")])
        .unwrap();
    assert_eq!(attrs.len(), 2);
    assert_eq!(attrs[0].trait_type, "eyes");
    assert_eq!(attrs[0].value, "big");
    assert_eq!(attrs[1].trait_type, "background");
    assert_eq!(attrs[1].value, "blue");
    let three = Select::attributes(&vec![
        layer("01background", "02blue.png"),
        layer("02eyes", "01big.png"),
        layer("03mouth", "04grin.png"),
    ])
    .unwrap();
    let values: Vec<&str> = three.iter().map(|a| a.value.as_str()).collect();
    assert_eq!(values, vec!["big", "grin", "blue"]);
    assert_eq!(Select::attributes(&vec![]).unwrap().len(), 0);
    assert_eq!(
        Select::attributes(&vec![layer("01background", "01red.png"), layer("eyes", "01big.png")])
            .err(),
        Some(ArtGenError::IncorrectDirectoryConvention("eyes".to_string()))
    );
    assert_eq!(
        Select::attributes(&vec![layer("eyes", "01big.png")]).err(),
        Some(ArtGenError::IncorrectDirectoryConvention("eyes".to_string()))
    );
    assert_eq!(
        Select::attributes(&vec![layer("02eyes", "big.png")]).err(),
        Some(ArtGenError::IncorrectFileConvention("big.png".to_string()))
    );
}

#[test]
fn fresh_generator_accepts_any_key() {
    let g = Generator::new(0, 1, true, MAX_RETRIES);
    assert!(g.accepts(&vec![0, 1]));
    let lax = Generator::new(0, 1, false, MAX_RETRIES);
    assert!(lax.accepts(&vec![0, 1]));
}

#[test]
fn selection_metadata_links_under_ar() {
    let m = build_selection_metadata(3, vec![]);
    assert_eq!(m.name, "<my_project> #3");
    assert_eq!(m.image, "ar://hash/3.png");
    assert_eq!(m.description, "<my_project> is a cultural revolution.");
}

#[test]
fn composite_without_layers_keeps_base() {
    let base = image::DynamicImage::ImageRgba8(image::RgbaImage::from_pixel(
        1,
        1,
        image::Rgba([9, 8, 7, 255]),
    ));
    let out = composite(base, &vec![]).to_rgba8();
    assert_eq!(out.get_pixel(0, 0), &image::Rgba([9, 8, 7, 255]));
}

#[test]
fn slot_step_decisions() {
    let c = catalog(vec![dir("01background", &["01red.png", "01blue.png"])]);
    let mut rng = rand::thread_rng();
    let mut g = Generator::new(0, 2, true, 2);
    assert!(matches!(g.step(&vec![0], 0), SlotStep::Accept));
    let first = g.next_asset(&c, &mut rng).unwrap().unwrap();
    let k = first.asset.key.clone();
    assert!(matches!(g.step(&k, 0), SlotStep::Retry));
    assert!(matches!(g.step(&k, 1), SlotStep::Retry));
    assert!(matches!(g.step(&k, 2), SlotStep::GiveUp));
    let lax = Generator::new(0, 2, false, 0);
    assert!(matches!(lax.step(&k, 5), SlotStep::Accept));
}

#[test]
fn first_slot_of_unique_run_succeeds() {
    let c = catalog(vec![dir("01background", &["01red.png"])]);
    for _ in 0..20 {
        let out = run(&c, 4, 1, true, 0);
        assert!(out.error.is_none());
        assert_eq!(out.assets.len(), 1);
        assert_eq!(out.assets[0].id, 4);
    }
}
