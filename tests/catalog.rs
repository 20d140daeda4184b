use tuilet::fonts::{fonts_in_listing, gather_fonts, get_fonts_from_dir, search, sort_catalog, Font};

fn names(fonts: &[Font]) -> Vec<String> {
    fonts.iter().map(|f| f.name.clone()).collect()
}

#[test]
fn listing_keeps_font_files_only() {
    let paths = vec![
        String::from("/usr/share/figlet/mono9.tlf"),
        String::from("/usr/share/figlet/README"),
        String::from("/usr/share/figlet/big.flf"),
        String::from("/usr/share/figlet/notes.txt"),
    ];
    let fonts = fonts_in_listing("/usr/share/figlet", &paths);
    assert_eq!(names(&fonts), vec!["mono9", "big"]);
    assert!(fonts.iter().all(|f| f.dir == "/usr/share/figlet"));
}

#[test]
fn listing_strips_every_directory() {
    let paths = vec![String::from("a/b/c/future.tlf"), String::from("plain.flf")];
    let fonts = fonts_in_listing("a/b/c", &paths);
    assert_eq!(names(&fonts), vec!["future", "plain"]);
}

#[test]
fn listing_of_root_directory_strips_the_slash() {
    let paths = vec![String::from("/root.tlf")];
    let fonts = fonts_in_listing("/", &paths);
    assert_eq!(names(&fonts), vec!["root"]);
}

#[test]
fn listing_strips_directories_with_newlines() {
    let paths = vec![String::from("/odd\ndir/x/wide.flf"), String::from("/a\n/b.tlf")];
    let fonts = fonts_in_listing("/odd", &paths);
    assert_eq!(names(&fonts), vec!["wide", "b"]);
}

#[test]
fn gathering_takes_default_dir_first_then_extra_dirs_in_order() {
    let dirs = vec![String::from("/x"), String::from("/y"), String::from("/z")];
    let listings = vec![
        Some(vec![String::from("/usr/share/figlet/mono9.tlf")]),
        Some(vec![String::from("/x/big.flf"), String::from("/x/a.tlf")]),
        None,
        Some(vec![String::from("/z/c.tlf")]),
    ];
    let fonts = gather_fonts("/usr/share/figlet", &dirs, &listings);
    assert_eq!(names(&fonts), vec!["mono9", "big", "a", "c"]);
    let found_dirs: Vec<String> = fonts.iter().map(|f| f.dir.clone()).collect();
    assert_eq!(found_dirs, vec!["/usr/share/figlet", "/x", "/x", "/z"]);
}

#[test]
fn gathering_with_missing_listings_finds_nothing_there() {
    let dirs = vec![String::from("/x")];
    assert!(gather_fonts("/d", &dirs, &Vec::new()).is_empty());
}

#[test]
fn unreadable_directory_has_no_fonts() {
    assert!(get_fonts_from_dir("/nowhere", None).is_empty());
    let fonts = get_fonts_from_dir("/d", Some(vec![String::from("/d/x.tlf")]));
    assert_eq!(names(&fonts), vec!["x"]);
}

#[test]
fn search_ignores_case() {
    let fonts = vec![
        Font::new("Mono9", "/d"),
        Font::new("big", "/d"),
        Font::new("smmono12", "/d"),
    ];
    assert_eq!(names(&search(&fonts, "MONO")), vec!["Mono9", "smmono12"]);
    assert_eq!(names(&search(&fonts, "")), vec!["Mono9", "big", "smmono12"]);
    assert!(search(&fonts, "zzz").is_empty());
}

#[test]
fn catalog_sorts_by_lower_case_name() {
    let fonts = vec![
        Font::new("future", "/a"),
        Font::new("Big", "/a"),
        Font::new("ascii9", "/b"),
        Font::new("big", "/b"),
        Font::new("emboss", "/a"),
    ];
    let sorted = sort_catalog(&fonts);
    assert_eq!(names(&sorted), vec!["ascii9", "Big", "big", "emboss", "future"]);
    assert_eq!(sorted[1].dir, "/a");
    assert_eq!(sorted[2].dir, "/b");
}

#[test]
fn catalog_of_nothing_is_empty() {
    assert!(sort_catalog(&Vec::new()).is_empty());
}
