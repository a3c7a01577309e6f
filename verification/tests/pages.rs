use see_slug::html::{escape_html, list_subtitles, make_html_video, make_html_videos};
use see_slug::languages::language_abbrevation_to_name;
use see_slug::link_info::LinkInfo;
use see_slug::name_parts::NameParts;
use see_slug::paths::{get_folder_name, get_last_extension, has_parent_dir};

#[test]
fn escape_html_specials() {
    assert_eq!(escape_html("a<b&c>d'e\"f"), "a&lt;b&amp;c&gt;d&apos;e&quot;f");
    assert_eq!(escape_html("plain"), "plain");
    assert_eq!(escape_html(""), "");
}

#[test]
fn parent_dir_detection() {
    assert!(has_parent_dir(".."));
    assert!(has_parent_dir("/../x"));
    assert!(has_parent_dir("/a/.."));
    assert!(has_parent_dir("/a/../b"));
    assert!(has_parent_dir("..\\x"));
    assert!(!has_parent_dir("/a..b/"));
    assert!(!has_parent_dir("/..."));
    assert!(!has_parent_dir("/a.b/c"));
    assert!(!has_parent_dir(""));
}

#[test]
fn last_extension_of_paths() {
    assert_eq!(get_last_extension("/Movie.en.vtt"), ".vtt");
    assert_eq!(get_last_extension("/clip.mp4"), ".mp4");
    assert_eq!(get_last_extension("/folder/"), "");
    assert_eq!(get_last_extension("/a.b/c"), "");
    assert_eq!(get_last_extension("noext"), "");
}

#[test]
fn folder_names() {
    assert_eq!(get_folder_name("/Star Wars/Prequels/"), "Prequels");
    assert_eq!(get_folder_name("/"), "");
    assert_eq!(get_folder_name(""), "");
    assert_eq!(get_folder_name("/Movies/"), "Movies");
}

#[test]
fn name_parts_split_at_first_dot() {
    let parts = NameParts::new("Movie.default.en.vtt");
    assert_eq!(parts.basename, "Movie");
    assert_eq!(parts.extension, ".default.en.vtt");
    let parts = NameParts::new("folder");
    assert_eq!(parts.basename, "folder");
    assert_eq!(parts.extension, "");
}

#[test]
fn language_names() {
    assert_eq!(language_abbrevation_to_name(""), "English");
    assert_eq!(language_abbrevation_to_name("en"), "English");
    assert_eq!(language_abbrevation_to_name("fr"), "French");
    assert_eq!(language_abbrevation_to_name("zh"), "Chinese");
    assert_eq!(language_abbrevation_to_name("xx"), "Other");
}

fn names(list: &[&str]) -> Vec<String> {
    list.iter().map(|s| String::from(*s)).collect()
}

#[test]
fn listing_classifies_and_sorts() {
    let entries = names(&["Zebra.mp4", "Alpha", "Zebra.jpg", "notes.txt", "Beta.mp4"]);
    let links = LinkInfo::list(&entries);
    assert_eq!(links.len(), 3);
    assert_eq!(links[0].basename, "Alpha");
    assert!(links[0].is_folder);
    assert_eq!(links[0].poster_extension, "");
    assert_eq!(links[1].basename, "Beta");
    assert!(!links[1].is_folder);
    assert_eq!(links[2].basename, "Zebra");
    assert!(!links[2].is_folder);
    assert_eq!(links[2].poster_extension, ".jpg");
}

#[test]
fn listing_last_poster_wins() {
    let entries = names(&["A.mp4", "A.jpg", "A.webp"]);
    let links = LinkInfo::list(&entries);
    assert_eq!(links.len(), 1);
    assert_eq!(links[0].poster_extension, ".webp");
}

#[test]
fn listing_is_deterministic() {
    // Re-listing an unchanged folder yields an identical ordering
    let entries = names(&["b.mp4", "a.mp4", "c", "a", "b.png"]);
    let first = LinkInfo::list(&entries);
    let second = LinkInfo::list(&entries);
    assert_eq!(first.len(), second.len());
    for (x, y) in first.iter().zip(second.iter()) {
        assert_eq!(x.basename, y.basename);
        assert_eq!(x.is_folder, y.is_folder);
        assert_eq!(x.poster_extension, y.poster_extension);
    }
    let sorted: Vec<&str> = first.iter().map(|l| l.basename.as_str()).collect();
    assert_eq!(sorted, vec!["a", "a", "b", "c"]);
}

#[test]
fn videos_page_lists_links() {
    let links = vec![
        LinkInfo {
            is_folder: true,
            basename: String::from("Shows"),
            poster_extension: String::new(),
        },
        LinkInfo {
            is_folder: false,
            basename: String::from("Movie One"),
            poster_extension: String::from(".jpg"),
        },
    ];
    let page = make_html_videos(&links, "/Films/");
    assert!(page.contains("<title>Films - See Slug</title>"));
    assert!(page.contains("href='Shows/'"));
    assert!(page.contains("href='?watch=Movie One'"));
    assert!(page.contains("<img src='Movie One.jpg' loading='lazy' aria-hidden='true'>"));
    assert!(page.starts_with("<!DOCTYPE html>"));
    assert!(page.ends_with("</body></html>"));
}

#[test]
fn videos_page_at_root_has_no_subtitle() {
    let links: Vec<LinkInfo> = Vec::new();
    let page = make_html_videos(&links, "/");
    assert!(page.contains("<title>See Slug</title>"));
}

#[test]
fn video_page_renders_named_video() {
    // Scenario: GET /?watch=Movie%20One renders the single-video view
    let page = make_html_video("Movie One", "");
    assert!(page.contains("<title>Movie One - See Slug</title>"));
    assert!(page.contains("<video id='video' src='Movie One.mp4' autoplay controls>"));
}

#[test]
fn video_page_escapes_the_name() {
    let page = make_html_video("a<b", "");
    assert!(page.contains("<title>a&lt;b - See Slug</title>"));
    assert!(page.contains("src='a&lt;b.mp4'"));
}

#[test]
fn subtitles_for_one_video() {
    let entries = names(&[
        "Movie.vtt",
        "Movie.default.vtt",
        "Movie.en.vtt",
        "Movie.default.fr.vtt",
        "Other.en.vtt",
        "Movie.mp4",
    ]);
    let tracks = list_subtitles(&entries, "Movie");
    assert_eq!(
        tracks,
        concat_tracks(&[
            "<track  kind='subtitles' srclang='' label='English' src='Movie.vtt'>",
            "<track default kind='subtitles' srclang='' label='English' src='Movie.default.vtt'>",
            "<track  kind='subtitles' srclang='en' label='English' src='Movie.en.vtt'>",
            "<track default kind='subtitles' srclang='fr' label='French' src='Movie.default.fr.vtt'>",
        ])
    );
}

fn concat_tracks(tracks: &[&str]) -> String {
    let mut all = String::new();
    for t in tracks {
        all.push_str(t);
    }
    all
}

#[test]
fn subtitles_for_missing_video() {
    let entries = names(&["Other.vtt"]);
    assert_eq!(list_subtitles(&entries, "Movie"), "");
}
