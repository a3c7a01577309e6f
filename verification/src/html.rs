//! The generated HTML pages: the folder listing of video links and the
//! single-video page, with HTML escaping and subtitle tracks.

use vstd::prelude::*;
use vstd::string::StrSliceExecFns;
use vstd::string::StringExecFns;

use crate::languages::{language_abbrevation_to_name, spec_language_name};
use crate::link_info::{links_view, LinkInfo, LinkModel};
use crate::name_parts::{spec_basename, spec_extension, NameParts};
use crate::paths::folder_name;
use crate::text::{push_char, str_eq};

verus! {

// ---------------------------------------------------------------------------
// HTML escaping
// ---------------------------------------------------------------------------

/// What one character contributes to escaped HTML.
pub open spec fn escape_char(c: char) -> Seq<char> {
    if c == '"' {
        "&quot;"@
    } else if c == '&' {
        "&amp;"@
    } else if c == '\'' {
        "&apos;"@
    } else if c == '<' {
        "&lt;"@
    } else if c == '>' {
        "&gt;"@
    } else {
        seq![c]
    }
}

/// A string with the special HTML characters escaped.
pub open spec fn escape_html_spec(s: Seq<char>) -> Seq<char>
    decreases s.len(),
{
    if s.len() == 0 {
        Seq::empty()
    } else {
        escape_html_spec(s.drop_last()) + escape_char(s.last())
    }
}

/// Escape the special HTML characters from a string.
pub fn escape_html(slice: &str) -> (r: String)
    ensures
        r@ == escape_html_spec(slice@),
{
    let len = slice.unicode_len();
    let mut r = String::new();
    let mut i: usize = 0;
    while i < len
        invariant
            0 <= i <= len,
            len == slice@.len(),
            r@ == escape_html_spec(slice@.take(i as int)),
        decreases len - i,
    {
        let c = slice.get_char(i);
        if c == '"' {
            r.append("&quot;");
        } else if c == '&' {
            r.append("&amp;");
        } else if c == '\'' {
            r.append("&apos;");
        } else if c == '<' {
            r.append("&lt;");
        } else if c == '>' {
            r.append("&gt;");
        } else {
            push_char(&mut r, c);
        }
        proof {
            let t = slice@.take(i as int + 1);
            assert(t.drop_last() =~= slice@.take(i as int));
            assert(t.last() == slice@[i as int]);
            if !(slice@[i as int] == '"' || slice@[i as int] == '&' || slice@[i as int] == '\''
                || slice@[i as int] == '<' || slice@[i as int] == '>') {
                assert(r@ =~= escape_html_spec(slice@.take(i as int)) + escape_char(
                    slice@[i as int],
                ));
            }
        }
        i += 1;
    }
    proof {
        assert(slice@.take(len as int) =~= slice@);
    }
    r
}

// ---------------------------------------------------------------------------
// Prefix and suffix tests
// ---------------------------------------------------------------------------

/// Whether `s` ends with `suffix`.
pub open spec fn seq_ends_with(s: Seq<char>, suffix: Seq<char>) -> bool {
    s.len() >= suffix.len() && s.subrange(s.len() - suffix.len(), s.len() as int) == suffix
}

/// Whether `s` starts with `prefix`.
pub open spec fn seq_starts_with(s: Seq<char>, prefix: Seq<char>) -> bool {
    s.len() >= prefix.len() && s.subrange(0, prefix.len() as int) == prefix
}

/// Whether the string ends with the suffix.
pub fn str_ends_with(s: &str, suffix: &str) -> (r: bool)
    ensures
        r == seq_ends_with(s@, suffix@),
{
    let n = s.unicode_len();
    let m = suffix.unicode_len();
    if m > n {
        return false;
    }
    let mut k: usize = 0;
    while k < m
        invariant
            0 <= k <= m <= n,
            n == s@.len(),
            m == suffix@.len(),
            forall|t: int| 0 <= t < k ==> s@[n - m + t] == suffix@[t],
        decreases m - k,
    {
        if s.get_char(n - m + k) != suffix.get_char(k) {
            proof {
                let sub = s@.subrange(n as int - m, n as int);
                if sub == suffix@ {
                    assert(sub[k as int] == s@[n as int - m + k]);
                }
            }
            return false;
        }
        k += 1;
    }
    proof {
        assert(s@.subrange(n as int - m, n as int) =~= suffix@);
    }
    true
}

/// Whether the string starts with the prefix.
pub fn str_starts_with(s: &str, prefix: &str) -> (r: bool)
    ensures
        r == seq_starts_with(s@, prefix@),
{
    let n = s.unicode_len();
    let m = prefix.unicode_len();
    if m > n {
        return false;
    }
    let mut k: usize = 0;
    while k < m
        invariant
            0 <= k <= m <= n,
            n == s@.len(),
            m == prefix@.len(),
            forall|t: int| 0 <= t < k ==> s@[t] == prefix@[t],
        decreases m - k,
    {
        if s.get_char(k) != prefix.get_char(k) {
            proof {
                let sub = s@.subrange(0, m as int);
                if sub == prefix@ {
                    assert(sub[k as int] == s@[k as int]);
                }
            }
            return false;
        }
        k += 1;
    }
    proof {
        assert(s@.subrange(0, m as int) =~= prefix@);
    }
    true
}

// ---------------------------------------------------------------------------
// The listing page
// ---------------------------------------------------------------------------

/// The poster image markup of a link, empty when it has no poster.
pub open spec fn poster_markup(l: LinkModel) -> Seq<char> {
    if l.poster_extension.len() == 0 {
        Seq::empty()
    } else {
        "<img src='"@ + escape_html_spec(l.basename) + l.poster_extension
            + "' loading='lazy' aria-hidden='true'>"@
    }
}

/// The markup of one link: a folder links to its own listing, a video to
/// the watch view of its folder.
pub open spec fn video_link_markup(l: LinkModel) -> Seq<char> {
    if l.is_folder {
        "<div class='col-6 col-sm-4 col-md-3 col-lg-2'><a class='video_link' href='"@
            + escape_html_spec(l.basename) + "/'><div class='poster' aria-hidden='true'>"@
            + poster_markup(l) + "<div class='overlay'></div></div><p>"@ + escape_html_spec(
            l.basename,
        ) + "</p></a></div>"@
    } else {
        "<div class='col-6 col-sm-4 col-md-3 col-lg-2'><a class='video_link' href='?watch="@
            + escape_html_spec(l.basename) + "'><div class='poster' aria-hidden='true'>"@
            + poster_markup(l) + "<div class='overlay'></div></div><p>"@ + escape_html_spec(
            l.basename,
        ) + "</p></a></div>"@
    }
}

/// The markup of all the links, in order.
pub open spec fn video_links_markup(links: Seq<LinkModel>) -> Seq<char>
    decreases links.len(),
{
    if links.len() == 0 {
        Seq::empty()
    } else {
        video_links_markup(links.drop_last()) + video_link_markup(links.last())
    }
}

/// The page subtitle: the folder name and a dash, or nothing at the root.
pub open spec fn page_subtitle(name: Seq<char>) -> Seq<char> {
    if name.len() == 0 {
        Seq::empty()
    } else {
        escape_html_spec(name) + " - "@
    }
}

/// The whole listing page for a client folder and its links.
pub open spec fn videos_page(links: Seq<LinkModel>, client_folder: Seq<char>) -> Seq<char> {
    "<!DOCTYPE html><html lang='en' dir='ltr'><head><meta charset='utf-8'><meta name='viewport' content='width=device-width, initial-scale=1'><title>"@
        + page_subtitle(folder_name(client_folder))
        + "See Slug</title><link type='text/css' rel='stylesheet' href='/style.css' as='style'><link type='font/woff2' rel='preload' href='/alata.woff2' as='font' crossorigin><link type='font/woff2' rel='preload' href='/saira_condensed.woff2' as='font' crossorigin><link type='image/svg+xml' rel='icon' href='/logo_circle.svg'><link rel='manifest' href='/app.webmanifest' /></head><body id='videos_body'><header><a href='/'><img src='/logo.svg' loading='lazy' aria-hidden='true'><h1>See Slug</h1></a></header><div class='container g-0'><div class='row g-4'>"@
        + video_links_markup(links)
        + "</div></div><script src='/videos.js'></script></body></html>"@
}

/// Build the markup of one link.
fn make_video_link(l: &LinkInfo) -> (r: String)
    ensures
        r@ == video_link_markup(l@),
{
    let escaped = escape_html(l.basename.as_str());
    let mut poster = String::new();
    if l.poster_extension.as_str().unicode_len() > 0 {
        poster.append("<img src='");
        poster.append(escaped.as_str());
        poster.append(l.poster_extension.as_str());
        poster.append("' loading='lazy' aria-hidden='true'>");
        proof {
            assert(poster@ =~= poster_markup(l@));
        }
    } else {
        proof {
            assert(poster@ =~= poster_markup(l@));
        }
    }
    let mut r = String::new();
    if l.is_folder {
        r.append("<div class='col-6 col-sm-4 col-md-3 col-lg-2'><a class='video_link' href='");
        r.append(escaped.as_str());
        r.append("/'><div class='poster' aria-hidden='true'>");
    } else {
        r.append(
            "<div class='col-6 col-sm-4 col-md-3 col-lg-2'><a class='video_link' href='?watch=",
        );
        r.append(escaped.as_str());
        r.append("'><div class='poster' aria-hidden='true'>");
    }
    r.append(poster.as_str());
    r.append("<div class='overlay'></div></div><p>");
    r.append(escaped.as_str());
    r.append("</p></a></div>");
    proof {
        assert(r@ =~= video_link_markup(l@));
    }
    r
}

/// Make the HTML page for a folder which lists videos.
pub fn make_html_videos(links: &Vec<LinkInfo>, client_folder: &str) -> (r: String)
    ensures
        r@ == videos_page(links_view(links@), client_folder@),
{
    let ghost lv = links_view(links@);
    let n = links.len();
    let mut body = String::new();
    let mut i: usize = 0;
    proof {
        assert(lv.take(0) =~= Seq::<LinkModel>::empty());
        assert(body@ =~= video_links_markup(lv.take(0)));
    }
    while i < n
        invariant
            0 <= i <= n,
            n == links@.len(),
            lv == links_view(links@),
            body@ == video_links_markup(lv.take(i as int)),
        decreases n - i,
    {
        let link_markup = make_video_link(&links[i]);
        body.append(link_markup.as_str());
        proof {
            let t = lv.take(i as int + 1);
            assert(t.drop_last() =~= lv.take(i as int));
            assert(t.last() == lv[i as int]);
        }
        i += 1;
    }
    proof {
        assert(lv.take(n as int) =~= lv);
    }

    let name = crate::paths::get_folder_name(client_folder);
    let mut subtitle = String::new();
    if name.unicode_len() > 0 {
        let escaped_name = escape_html(name);
        subtitle.append(escaped_name.as_str());
        subtitle.append(" - ");
    }
    proof {
        assert(subtitle@ =~= page_subtitle(folder_name(client_folder@)));
    }

    let mut r = String::from_str(
        "<!DOCTYPE html><html lang='en' dir='ltr'><head><meta charset='utf-8'><meta name='viewport' content='width=device-width, initial-scale=1'><title>",
    );
    r.append(subtitle.as_str());
    r.append(
        "See Slug</title><link type='text/css' rel='stylesheet' href='/style.css' as='style'><link type='font/woff2' rel='preload' href='/alata.woff2' as='font' crossorigin><link type='font/woff2' rel='preload' href='/saira_condensed.woff2' as='font' crossorigin><link type='image/svg+xml' rel='icon' href='/logo_circle.svg'><link rel='manifest' href='/app.webmanifest' /></head><body id='videos_body'><header><a href='/'><img src='/logo.svg' loading='lazy' aria-hidden='true'><h1>See Slug</h1></a></header><div class='container g-0'><div class='row g-4'>",
    );
    r.append(body.as_str());
    r.append("</div></div><script src='/videos.js'></script></body></html>");
    proof {
        assert(r@ =~= videos_page(lv, client_folder@));
    }
    r
}

// ---------------------------------------------------------------------------
// The single-video page
// ---------------------------------------------------------------------------

/// The subtitle track markup of one folder entry: empty unless the entry is
/// a `.vtt` subtitle for this video; `.default.` after the basename marks
/// the default track, and the part between it (or the first dot) and the
/// `.vtt` suffix is the language code.
pub open spec fn subtitle_track(name: Seq<char>, video: Seq<char>) -> Seq<char> {
    let ext = spec_extension(name);
    if spec_basename(name) != video || !seq_ends_with(ext, ".vtt"@) {
        Seq::empty()
    } else {
        let is_default = seq_starts_with(ext, ".default."@);
        let lang = if is_default {
            if ext.len() > ".default."@.len() + ".vtt"@.len() {
                ext.subrange(".default."@.len() as int, ext.len() - ".vtt"@.len())
            } else {
                Seq::empty()
            }
        } else {
            if ext.len() > ".vtt"@.len() + 1 {
                ext.subrange(1, ext.len() - ".vtt"@.len())
            } else {
                Seq::empty()
            }
        };
        "<track "@ + (if is_default {
            "default"@
        } else {
            Seq::empty()
        }) + " kind='subtitles' srclang='"@ + escape_html_spec(lang) + "' label='"@
            + spec_language_name(lang) + "' src='"@ + escape_html_spec(name) + "'>"@
    }
}

/// The subtitle tracks of a folder's entries for one video, in order.
pub open spec fn subtitles_markup(names: Seq<Seq<char>>, video: Seq<char>) -> Seq<char>
    decreases names.len(),
{
    if names.len() == 0 {
        Seq::empty()
    } else {
        subtitles_markup(names.drop_last(), video) + subtitle_track(names.last(), video)
    }
}

/// List the file names of the subtitles for the video among the folder
/// entries.
pub fn list_subtitles(names: &Vec<String>, video_name: &str) -> (r: String)
    ensures
        r@ == subtitles_markup(crate::link_info::names_view(names@), video_name@),
{
    let ghost nv = crate::link_info::names_view(names@);
    let n = names.len();
    let mut r = String::new();
    let mut i: usize = 0;
    proof {
        assert(nv.take(0) =~= Seq::<Seq<char>>::empty());
        assert(r@ =~= subtitles_markup(nv.take(0), video_name@));
    }
    while i < n
        invariant
            0 <= i <= n,
            n == names@.len(),
            nv == crate::link_info::names_view(names@),
            r@ == subtitles_markup(nv.take(i as int), video_name@),
        decreases n - i,
    {
        let name = &names[i];
        let parts = NameParts::new(name.as_str());
        proof {
            let t = nv.take(i as int + 1);
            assert(t.drop_last() =~= nv.take(i as int));
            assert(t.last() == name@);
            reveal_strlit(".default.");
            reveal_strlit(".vtt");
        }
        if str_eq(parts.basename, video_name) && str_ends_with(parts.extension, ".vtt") {
            let elen = parts.extension.unicode_len();
            let is_default = str_starts_with(parts.extension, ".default.");
            let lang = if is_default {
                if elen > 13 {
                    parts.extension.substring_char(9, elen - 4)
                } else {
                    ""
                }
            } else {
                if elen > 5 {
                    parts.extension.substring_char(1, elen - 4)
                } else {
                    ""
                }
            };
            proof {
                reveal_strlit("");
                let ext = spec_extension(name@);
                if is_default {
                    if elen > 13 {
                    } else {
                        assert(lang@ =~= Seq::<char>::empty());
                    }
                } else {
                    if elen > 5 {
                    } else {
                        assert(lang@ =~= Seq::<char>::empty());
                    }
                }
            }
            let language_long = language_abbrevation_to_name(lang);
            let escaped_lang = escape_html(lang);
            let escaped_name = escape_html(name.as_str());
            r.append("<track ");
            if is_default {
                r.append("default");
            }
            r.append(" kind='subtitles' srclang='");
            r.append(escaped_lang.as_str());
            r.append("' label='");
            r.append(language_long);
            r.append("' src='");
            r.append(escaped_name.as_str());
            r.append("'>");
            proof {
                assert(r@ =~= subtitles_markup(nv.take(i as int), video_name@) + subtitle_track(
                    name@,
                    video_name@,
                ));
            }
        } else {
            proof {
                assert(subtitle_track(name@, video_name@) =~= Seq::<char>::empty());
                assert(r@ =~= subtitles_markup(nv.take(i as int + 1), video_name@));
            }
        }
        i += 1;
    }
    proof {
        assert(nv.take(n as int) =~= nv);
    }
    r
}

/// The whole single-video page: the escaped video name stands in the title
/// and in the video source, and the subtitle tracks stand in the video
/// element.
pub open spec fn video_page(video_name: Seq<char>, subtitles: Seq<char>) -> Seq<char> {
    "<!DOCTYPE html><html lang='en' dir='ltr'><head><meta charset='utf-8'><meta name='viewport' content='width=device-width, initial-scale=1'><title>"@
        + escape_html_spec(video_name)
        + " - See Slug</title><link type='text/css' rel='stylesheet' href='/style.css' as='style'><link type='font/woff2' href='/alata.woff2' as='font'><link type='image/svg+xml' rel='icon' href='/logo_circle.svg'><link rel='manifest' href='/app.webmanifest' /></head><body id='video_body'><video id='video' src='"@
        + escape_html_spec(video_name) + ".mp4' autoplay controls>"@ + subtitles
        + "</video><section id='controls' class='hidden'><div id='buttons'><button id='play_pause' title='Pause - Space'><svg id='play' class='hidden' viewBox='0 0 32 32' aria-hidden='true'><path d='M10.0718 8L23.9281 16L10.0718 24V8Z'/></svg><svg id='pause' viewBox='0 0 32 32' aria-hidden='true'><path d='M9.06995 23.9999V8M22.9299 24V8.00006'/></svg></button><button id='captions' title='Captions Off - C'><svg id='captions_on' class='hidden' viewBox='0 0 32 32' aria-hidden='true'><path d='M14.9097 13.884C13.2968 12.982 11.0515 13.6619 11.0515 16C11.0515 18.338 13.2968 19.018 14.9097 18.1161M20.9485 13.884C19.3356 12.982 17.0903 13.6619 17.0903 16C17.0903 18.338 19.3356 19.018 20.9485 18.1161M8 8H24V24H8V8Z'/></svg><svg id='captions_off' viewBox='0 0 32 32' aria-hidden='true'><path d='M14.9097 13.884C13.2968 12.982 11.0515 13.6619 11.0515 16C11.0515 18.338 13.2968 19.018 14.9097 18.1161M20.9486 13.884C19.3356 12.982 17.0903 13.6619 17.0903 16C17.0903 18.338 19.3356 19.018 20.9486 18.1161M8 8H24V24H8V8Z'/><path d='M8 8L24 24'/></svg></button><button id='picture_in_picture' title='Picture in Picture - P'><svg viewBox='0 0 32 32' aria-hidden='true'><path d='M11.6266 24H6V8H26V11.2495M14.75 15H26V24H14.75V15Z'/></svg></button><button id='download' title='Download'><svg viewBox='0 0 32 32' aria-hidden='true'><path d='M16 8V23.9983M24 16L16 24L8 16'/></svg></button><button id='fullscreen' title='Fullscreen - F'><svg id='enter_fullscreen' viewBox='0 0 32 32' aria-hidden='true'><path d='M13 8L8 8L8 13M24 13L24 8L19 8M19 24L24 24L24 19M8 19L8 24L13 24'/></svg><svg id='exit_fullscreen' class='hidden' viewBox='0 0 32 32' aria-hidden='true'><path d='M8 13H13V8M19 8V13H24M24 19H19V24M13 24L13 19H8'/></svg></button></div><div id='times_and_progress' class='invisible'><div class='time'><span id='current_time' aria-label='Current Time'></span></div><input id='progress' type='range' title='Seek' max='1000'><div class='time right'><span id='total_time' aria-label='Total Time'></span></div></div></section><dialog id='dialog'><p id='dialog_message'></p><form method='dialog'><button>Close</button></form></dialog><script src='/video.js'></script></body></html>"@
}

/// Make the HTML page which plays one video.
pub fn make_html_video(video_name: &str, subtitles: &str) -> (r: String)
    ensures
        r@ == video_page(video_name@, subtitles@),
{
    let escaped = escape_html(video_name);
    let mut r = String::from_str(
        "<!DOCTYPE html><html lang='en' dir='ltr'><head><meta charset='utf-8'><meta name='viewport' content='width=device-width, initial-scale=1'><title>",
    );
    r.append(escaped.as_str());
    r.append(
        " - See Slug</title><link type='text/css' rel='stylesheet' href='/style.css' as='style'><link type='font/woff2' href='/alata.woff2' as='font'><link type='image/svg+xml' rel='icon' href='/logo_circle.svg'><link rel='manifest' href='/app.webmanifest' /></head><body id='video_body'><video id='video' src='",
    );
    r.append(escaped.as_str());
    r.append(".mp4' autoplay controls>");
    r.append(subtitles);
    r.append(
        "</video><section id='controls' class='hidden'><div id='buttons'><button id='play_pause' title='Pause - Space'><svg id='play' class='hidden' viewBox='0 0 32 32' aria-hidden='true'><path d='M10.0718 8L23.9281 16L10.0718 24V8Z'/></svg><svg id='pause' viewBox='0 0 32 32' aria-hidden='true'><path d='M9.06995 23.9999V8M22.9299 24V8.00006'/></svg></button><button id='captions' title='Captions Off - C'><svg id='captions_on' class='hidden' viewBox='0 0 32 32' aria-hidden='true'><path d='M14.9097 13.884C13.2968 12.982 11.0515 13.6619 11.0515 16C11.0515 18.338 13.2968 19.018 14.9097 18.1161M20.9485 13.884C19.3356 12.982 17.0903 13.6619 17.0903 16C17.0903 18.338 19.3356 19.018 20.9485 18.1161M8 8H24V24H8V8Z'/></svg><svg id='captions_off' viewBox='0 0 32 32' aria-hidden='true'><path d='M14.9097 13.884C13.2968 12.982 11.0515 13.6619 11.0515 16C11.0515 18.338 13.2968 19.018 14.9097 18.1161M20.9486 13.884C19.3356 12.982 17.0903 13.6619 17.0903 16C17.0903 18.338 19.3356 19.018 20.9486 18.1161M8 8H24V24H8V8Z'/><path d='M8 8L24 24'/></svg></button><button id='picture_in_picture' title='Picture in Picture - P'><svg viewBox='0 0 32 32' aria-hidden='true'><path d='M11.6266 24H6V8H26V11.2495M14.75 15H26V24H14.75V15Z'/></svg></button><button id='download' title='Download'><svg viewBox='0 0 32 32' aria-hidden='true'><path d='M16 8V23.9983M24 16L16 24L8 16'/></svg></button><button id='fullscreen' title='Fullscreen - F'><svg id='enter_fullscreen' viewBox='0 0 32 32' aria-hidden='true'><path d='M13 8L8 8L8 13M24 13L24 8L19 8M19 24L24 24L24 19M8 19L8 24L13 24'/></svg><svg id='exit_fullscreen' class='hidden' viewBox='0 0 32 32' aria-hidden='true'><path d='M8 13H13V8M19 8V13H24M24 19H19V24M13 24L13 19H8'/></svg></button></div><div id='times_and_progress' class='invisible'><div class='time'><span id='current_time' aria-label='Current Time'></span></div><input id='progress' type='range' title='Seek' max='1000'><div class='time right'><span id='total_time' aria-label='Total Time'></span></div></div></section><dialog id='dialog'><p id='dialog_message'></p><form method='dialog'><button>Close</button></form></dialog><script src='/video.js'></script></body></html>",
    );
    proof {
        assert(r@ =~= video_page(video_name@, subtitles@));
    }
    r
}

} // verus!
