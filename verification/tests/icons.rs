use std::io::Cursor;

use glass::desktop::desktop_icon;
use glass::icon::load_icon;
use glass::icon_search::{icon_name_matches, probe_question, Answer, IconSearch, Query};
use image::{DynamicImage, ImageFormat, Rgba, RgbaImage};

/// The files of a small system.
struct Files {
    paths: Vec<&'static str>,
    listings: Vec<(&'static str, Vec<&'static str>)>,
    contents: Vec<(&'static str, &'static str)>,
}

fn no_files() -> Files {
    Files { paths: Vec::new(), listings: Vec::new(), contents: Vec::new() }
}

fn questions(query: &Query) -> String {
    format!("{:?}", query)
}

/// Runs a search, and returns its end and the questions it asked.
fn search(files: &Files, app_icon: &str, app_name: &str) -> (IconSearch, Vec<String>) {
    let mut asked = Vec::new();
    let mut state = IconSearch::begin(app_icon, app_name);
    while let Some(query) = state.question() {
        asked.push(questions(&query));
        let answer = match query {
            Query::Exists(path) => Answer::Exists(files.paths.iter().any(|p| *p == path)),
            Query::List(dir) => Answer::Listing(
                files
                    .listings
                    .iter()
                    .find(|(d, _)| *d == dir)
                    .map(|(_, names)| names.iter().map(|n| n.to_string()).collect()),
            ),
            Query::Read(path) => Answer::Content(
                files.contents.iter().find(|(p, _)| *p == path).map(|(_, c)| c.to_string()),
            ),
        };
        state = state.answered(answer);
    }
    (state, asked)
}

fn found(files: &Files, app_icon: &str, app_name: &str) -> Option<String> {
    match search(files, app_icon, app_name).0 {
        IconSearch::Found { path } => Some(path),
        IconSearch::FoundEntry { dir, index } => Some(format!("{dir}[{index}]")),
        _ => None,
    }
}

const PLACES: [&str; 13] = [
    "Exists(\"/usr/share/icons/hicolor/256x256/apps/mail.png\")",
    "Exists(\"/usr/share/icons/hicolor/128x128/apps/mail.png\")",
    "Exists(\"/usr/share/icons/hicolor/64x64/apps/mail.png\")",
    "Exists(\"/usr/share/icons/hicolor/48x48/apps/mail.png\")",
    "Exists(\"/usr/share/icons/hicolor/32x32/apps/mail.png\")",
    "List(\"/usr/share/icons/hicolor/256x256/apps\")",
    "List(\"/usr/share/icons/hicolor/128x128/apps\")",
    "List(\"/usr/share/icons/hicolor/64x64/apps\")",
    "List(\"/usr/share/icons/hicolor/48x48/apps\")",
    "Exists(\"/usr/share/pixmaps/mail.png\")",
    "Exists(\"/opt/mail/mail.png\")",
    "Read(\"/usr/share/applications/mail.desktop\")",
    "Read(\"/usr/share/applications/mail-desktop.desktop\")",
];

#[test]
fn search_looks_in_thirteen_places() {
    let (end, asked) = search(&no_files(), "mail", "");
    assert!(matches!(end, IconSearch::NotFound));
    assert_eq!(asked, PLACES.to_vec());
    for (i, place) in PLACES.iter().enumerate() {
        assert_eq!(questions(&probe_question("mail", i)), *place);
    }
}

#[test]
fn search_is_in_lower_case() {
    let (_, asked) = search(&no_files(), "MAIL", "");
    assert_eq!(asked, PLACES.to_vec());
    let (_, asked) = search(&no_files(), "\u{c9}clair", "");
    assert_eq!(asked[9], "Exists(\"/usr/share/pixmaps/\u{e9}clair.png\")");
}

#[test]
fn icon_name_comes_before_the_application_name() {
    let (_, asked) = search(&no_files(), "mail", "other");
    assert_eq!(asked, PLACES.to_vec());
    let (_, asked) = search(&no_files(), "", "Mail");
    assert_eq!(asked, PLACES.to_vec());
}

#[test]
fn nothing_to_look_for() {
    let (end, asked) = search(&no_files(), "", "");
    assert!(matches!(end, IconSearch::NotFound));
    assert!(asked.is_empty());
}

#[test]
fn path_is_tried_first() {
    let mut files = no_files();
    files.paths.push("/home/me/Icon.png");
    let (end, asked) = search(&files, "/home/me/Icon.png", "Mail");
    assert!(matches!(end, IconSearch::Found { path } if path == "/home/me/Icon.png"));
    assert_eq!(asked.len(), 1);
}

#[test]
fn missing_path_falls_back_to_the_application_name() {
    let (_, asked) = search(&no_files(), "/nowhere.png", "Mail");
    assert_eq!(asked[0], "Exists(\"/nowhere.png\")");
    assert_eq!(asked[1..].to_vec(), PLACES.to_vec());
    let (end, asked) = search(&no_files(), "/nowhere.png", "");
    assert!(matches!(end, IconSearch::NotFound));
    assert_eq!(asked.len(), 1);
}

#[test]
fn first_place_wins() {
    let mut files = no_files();
    files.paths.push("/opt/mail/mail.png");
    assert_eq!(found(&files, "mail", ""), Some("/opt/mail/mail.png".to_string()));
    files.listings.push(("/usr/share/icons/hicolor/64x64/apps", vec!["x.png", "org.mail.png"]));
    let theme = "/usr/share/icons/hicolor/64x64/apps[1]".to_string();
    assert_eq!(found(&files, "mail", ""), Some(theme));
    files.paths.push("/usr/share/icons/hicolor/32x32/apps/mail.png");
    let (end, asked) = search(&files, "mail", "");
    let exact = "/usr/share/icons/hicolor/32x32/apps/mail.png";
    assert!(matches!(end, IconSearch::Found { path } if path == exact));
    assert_eq!(asked.len(), 5);
}

#[test]
fn listed_names_match_in_any_spelling() {
    let mut files = no_files();
    files.listings.push((
        "/usr/share/icons/hicolor/256x256/apps",
        vec!["ghostty.svg", "other.png", "com.mitchellh.Ghostty.PNG", "ghostty.png"],
    ));
    let third = "/usr/share/icons/hicolor/256x256/apps[2]".to_string();
    assert_eq!(found(&files, "Ghostty", ""), Some(third));
}

#[test]
fn names_of_icons() {
    assert!(icon_name_matches("com.mail.app.png", "mail"));
    assert!(icon_name_matches("mail.png", "mail"));
    assert!(icon_name_matches("x.png", "x.png"));
    assert!(icon_name_matches("x.png", ""));
    assert!(!icon_name_matches("mail.svg", "mail"));
    assert!(!icon_name_matches("mai.png", "mail"));
    assert!(!icon_name_matches("mail.pn", "mail"));
    assert!(!icon_name_matches("png", "png"));
}

#[test]
fn desktop_entry_sends_the_search_on() {
    let mut files = no_files();
    files.contents.push((
        "/usr/share/applications/code.desktop",
        "[Desktop Entry]\nName=Code\nIcon=  VSCode \nIcon=never\n",
    ));
    files.paths.push("/usr/share/pixmaps/vscode.png");
    assert_eq!(found(&files, "code", ""), Some("/usr/share/pixmaps/vscode.png".to_string()));
}

#[test]
fn desktop_entry_may_name_a_path() {
    let mut files = no_files();
    files.contents.push(("/usr/share/applications/code-desktop.desktop", "Icon=/opt/Code/c.png"));
    files.paths.push("/opt/Code/c.png");
    assert_eq!(found(&files, "", "Code"), Some("/opt/Code/c.png".to_string()));
}

#[test]
fn desktop_entry_that_names_itself_is_passed_over() {
    let mut files = no_files();
    files.contents.push(("/usr/share/applications/mail.desktop", "Icon=mail\n"));
    let (end, asked) = search(&files, "mail", "");
    assert!(matches!(end, IconSearch::NotFound));
    assert_eq!(asked, PLACES.to_vec());
}

#[test]
fn what_is_found_is_there() {
    let mut files = no_files();
    files.paths.push("/usr/share/pixmaps/a.png");
    files.paths.push("/srv/b.ico");
    files.listings.push(("/usr/share/icons/hicolor/48x48/apps", vec!["x.svg", "org.C.Png"]));
    files.contents.push(("/usr/share/applications/d.desktop", "Icon=/srv/b.ico\n"));
    for name in ["a", "c", "d", "e", "/srv/b.ico", "/srv/missing.ico"] {
        match search(&files, name, "").0 {
            IconSearch::Found { path } => {
                assert!(files.paths.iter().any(|p| *p == path));
                assert!(path.ends_with(".png") || path == "/srv/b.ico");
            }
            IconSearch::FoundEntry { dir, index } => {
                let names = &files.listings.iter().find(|(d, _)| *d == dir).unwrap().1;
                assert!(names[index].to_lowercase().ends_with(".png"));
            }
            _ => assert!(name == "e" || name == "/srv/missing.ico"),
        }
    }
}

#[test]
fn search_that_is_over_stays_over() {
    let end = search(&no_files(), "mail", "").0;
    assert!(matches!(end.answered(Answer::Exists(true)), IconSearch::NotFound));
    let end = IconSearch::Found { path: "/a".to_string() };
    assert!(end.question().is_none());
    assert!(matches!(
        end.answered(Answer::Content(None)),
        IconSearch::Found { path } if path == "/a"
    ));
}

#[test]
fn desktop_icon_is_the_first_of_another_name() {
    assert_eq!(desktop_icon("Icon=a\nIcon=b\nIcon=c", "a"), Some("b".to_string()));
    assert_eq!(desktop_icon("Icon=a\nIcon=a\n", "a"), None);
    assert_eq!(desktop_icon("", "a"), None);
    assert_eq!(desktop_icon("Name=x\n\nIcon=y", "a"), Some("y".to_string()));
}

#[test]
fn desktop_icon_is_trimmed() {
    assert_eq!(desktop_icon("Icon= \t b c\u{3000}\r\nX=1", "a"), Some("b c".to_string()));
    assert_eq!(desktop_icon("Icon=\u{a0}a\r", "a"), None);
    assert_eq!(desktop_icon("Icon=", "a"), Some(String::new()));
    assert_eq!(desktop_icon("Icon=   ", ""), None);
    assert_eq!(desktop_icon("Icon=caf\u{e9}\n", "a"), Some("caf\u{e9}".to_string()));
}

#[test]
fn desktop_icon_key_begins_its_line() {
    assert_eq!(desktop_icon(" Icon=b\nicon=c\nIcon[de]=d\nXIcon=e", "a"), None);
    assert_eq!(desktop_icon("Icon", "a"), None);
    assert_eq!(desktop_icon("Ico\nn=b", "a"), None);
}

fn encoded(image: RgbaImage, format: ImageFormat) -> Vec<u8> {
    let mut bytes = Cursor::new(Vec::new());
    DynamicImage::ImageRgba8(image).write_to(&mut bytes, format).unwrap();
    bytes.into_inner()
}

fn gradient() -> RgbaImage {
    RgbaImage::from_fn(20, 10, |x, y| Rgba([(x * 12) as u8, (y * 25) as u8, 77, 255]))
}

#[test]
fn icon_is_scaled_to_the_card() {
    let data = encoded(gradient(), ImageFormat::Png);
    let pixels = load_icon("/usr/share/pixmaps/a.png", &data).unwrap();
    assert_eq!(pixels.len(), 36 * 36 * 4);
    let expected = DynamicImage::ImageRgba8(gradient())
        .resize_exact(36, 36, image::imageops::FilterType::Lanczos3)
        .to_rgba8()
        .into_raw();
    assert_eq!(pixels, expected);
}

#[test]
fn plain_icon_keeps_its_colour() {
    let image = RgbaImage::from_pixel(64, 64, Rgba([10, 200, 30, 255]));
    let pixels = load_icon("plain.PNG", &encoded(image, ImageFormat::Png)).unwrap();
    assert!(pixels.chunks_exact(4).all(|p| p == [10u8, 200, 30, 255]));
}

#[test]
fn grey_icon_becomes_colour() {
    let mut bytes = Cursor::new(Vec::new());
    let grey = image::GrayImage::from_pixel(36, 36, image::Luma([90u8]));
    DynamicImage::ImageLuma8(grey).write_to(&mut bytes, ImageFormat::Png).unwrap();
    let pixels = load_icon("grey.png", &bytes.into_inner()).unwrap();
    assert!(pixels.chunks_exact(4).all(|p| p == [90u8, 90, 90, 255]));
}

#[test]
fn format_goes_by_the_extension() {
    let png = encoded(gradient(), ImageFormat::Png);
    assert!(load_icon("a.jpg", &png).is_none());
    assert!(load_icon("a.svg", &png).is_none());
    assert!(load_icon("png", &png).is_none());
    let bmp = encoded(gradient(), ImageFormat::Bmp);
    assert!(load_icon("a.bmp", &bmp).is_some());
}

#[test]
fn damaged_icons_are_not_shown() {
    let png = encoded(gradient(), ImageFormat::Png);
    assert!(load_icon("a.png", &[]).is_none());
    assert!(load_icon("a.png", b"not an image").is_none());
    assert!(load_icon("a.png", &png[..png.len() / 2]).is_none());
}
