use umbral::settings::{
    extension, get_devices_path, get_settings_file_path, image_extension, is_news_image_path,
    join_path, list_news_images, news_folder, path_subtitle, Settings,
};
use umbral::state::AppState;

fn sample() -> Settings {
    Settings {
        api_key: "k".to_string(),
        news: false,
        unique_image: true,
        unique_image_path: "/img/a.png".to_string(),
    }
}

#[test]
fn default_settings_are_empty() {
    let s = Settings::new_default();
    assert_eq!(s.api_key, "");
    assert!(!s.news);
    assert!(!s.unique_image);
    assert_eq!(s.unique_image_path, "");
}

#[test]
fn loaded_settings_are_kept() {
    let s = Settings::from_loaded(Some(sample()));
    assert_eq!(s.api_key, "k");
    assert!(s.unique_image);
    let d = Settings::from_loaded(None);
    assert_eq!(d.api_key, "");
    assert!(!d.news && !d.unique_image);
}

#[test]
fn news_on_turns_single_image_off() {
    let mut s = sample();
    let other = s.switch_news(true);
    assert!(s.news);
    assert!(!s.unique_image);
    assert!(!other);
    assert_eq!(s.api_key, "k");
    assert_eq!(s.unique_image_path, "/img/a.png");
}

#[test]
fn news_off_keeps_single_image() {
    let mut s = sample();
    let other = s.switch_news(false);
    assert!(!s.news);
    assert!(s.unique_image);
    assert!(other);
}

#[test]
fn single_image_on_turns_news_off() {
    let mut s = Settings::new_default();
    s.switch_news(true);
    let other = s.switch_unique_image(true);
    assert!(s.unique_image);
    assert!(!s.news);
    assert!(!other);
    let other = s.switch_unique_image(false);
    assert!(!s.unique_image && !s.news);
    assert!(other);
}

#[test]
fn switches_never_leave_both_on() {
    for news in [false, true] {
        for unique in [false, true] {
            for active in [false, true] {
                let mut a = Settings { news, unique_image: unique, ..Settings::new_default() };
                a.switch_news(active);
                assert!(!(a.news && a.unique_image));
                let mut b = Settings { news, unique_image: unique, ..Settings::new_default() };
                b.switch_unique_image(active);
                assert!(!(b.news && b.unique_image));
            }
        }
    }
}

#[test]
fn api_key_is_trimmed() {
    let mut s = sample();
    s.set_api_key("  AIza-key \n");
    assert_eq!(s.api_key, "AIza-key");
    assert!(s.unique_image);
}

#[test]
fn image_path_set_and_cleared() {
    let mut s = Settings::new_default();
    s.set_unique_image_path("/x/y.gif".to_string());
    assert_eq!(s.unique_image_path, "/x/y.gif");
    s.clear_unique_image_path();
    assert_eq!(s.unique_image_path, "");
}

#[test]
fn switch_sensitivity_follows_settings() {
    let s = sample();
    assert!(!s.news_switch_sensitive());
    assert!(s.unique_image_switch_sensitive());
}

#[test]
fn app_state_holds_settings() {
    let st = AppState::new(sample());
    assert_eq!(st.settings.api_key, "k");
    assert!(st.settings.unique_image);
}

#[test]
fn paths_join_with_separator() {
    assert_eq!(get_devices_path("/home/u/.config/umbral"), "/home/u/.config/umbral/devices.json");
    assert_eq!(get_settings_file_path("/cfg/"), "/cfg/settings.json");
    assert_eq!(news_folder("/data"), "/data/news");
    assert_eq!(news_folder(""), "news");
    assert_eq!(join_path("a", "b"), "a/b");
}

#[test]
fn paths_agree_with_std() {
    for base in ["/home/u/.local/share/umbral", "/cfg/", "rel/dir", ""] {
        let expected = std::path::Path::new(base).join("news");
        assert_eq!(news_folder(base), expected.to_str().unwrap());
    }
}

#[test]
fn news_images_are_filtered_by_extension() {
    let paths: Vec<String> = ["/d/a.PNG", "/d/b.txt", "/d/.gif", "/d/c.jpeg", "/d/d.Jpg", "/d/e", "/d/f.gif", "/d/g.webp"]
        .iter()
        .map(|s| s.to_string())
        .collect();
    assert_eq!(list_news_images(&paths), vec!["/d/a.PNG", "/d/c.jpeg", "/d/d.Jpg", "/d/f.gif"]);
    assert_eq!(list_news_images(&Vec::new()), Vec::<String>::new());
}

#[test]
fn news_image_uses_last_extension() {
    assert!(is_news_image_path("/d/x.tar.gif"));
    assert!(!is_news_image_path("/d/x.gif.tar"));
    assert!(!is_news_image_path("/d/.."));
    assert!(!is_news_image_path("/"));
}

#[test]
fn extension_rules() {
    assert_eq!(extension("a.png"), Some("png".to_string()));
    assert_eq!(extension(".png"), None);
    assert_eq!(extension("png"), None);
    assert_eq!(extension("a."), Some("".to_string()));
    assert_eq!(extension("a.b.c"), Some("c".to_string()));
    assert!(image_extension("jpeg"));
    assert!(!image_extension("JPG"));
    assert!(!image_extension("pngx"));
}

#[test]
fn subtitle_shows_file_name() {
    assert_eq!(path_subtitle(""), "No file selected");
    assert_eq!(path_subtitle("/home/u/pic.png"), "pic.png");
    assert_eq!(path_subtitle("/"), "/");
    assert_eq!(path_subtitle("/a/.."), "/a/..");
    assert_eq!(path_subtitle("/a/b/"), "b");
}

#[test]
fn file_name_agrees_with_std() {
    let cases = [
        "", "/", "//", ".", "..", "./", "./.", "a", "/a", "a/", "a//", "a/.", "a/./", "a/..",
        "a/../", "/usr/bin/", "tmp/foo.txt", "foo.txt/.", "foo.txt/.//", "foo.txt/..", ".a",
        "a/.b", "a/...", "./a", "../a", "/a/b/c.png", "a/ /", "é/ñ.gif",
    ];
    for c in cases {
        let expected = std::path::Path::new(c).file_name().and_then(|n| n.to_str()).map(|n| n.to_string());
        assert_eq!(umbral::settings::file_name(c), expected, "path {:?}", c);
    }
}
