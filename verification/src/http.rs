//! The content-delivery decision engine: resolve a parsed request path to a
//! resource class before any filesystem work.

use vstd::prelude::*;
use vstd::string::StrSliceExecFns;

use crate::paths::{get_last_extension, has_dotdot, has_parent_dir, last_extension};
use crate::request::{QueryModel, QueryParam, Request, RequestModel};
use crate::text::{concat_strs, str_eq};

verus! {

/// The content types served from the filesystem.
#[derive(Clone, Copy, PartialEq, Eq, Structural, Debug)]
pub enum ContentType {
    Html,
    Jpeg,
    Js,
    Mp4,
    Png,
    Vtt,
    Webp,
}

/// The wire name of a content type.
pub open spec fn spec_content_type_str(ct: ContentType) -> Seq<char> {
    match ct {
        ContentType::Html => "text/html"@,
        ContentType::Jpeg => "image/jpeg"@,
        ContentType::Js => "text/javascript"@,
        ContentType::Mp4 => "video/mp4"@,
        ContentType::Png => "image/png"@,
        ContentType::Vtt => "text/vtt"@,
        ContentType::Webp => "image/webp"@,
    }
}

impl ContentType {
    /// The wire name of the content type.
    pub fn to_str(&self) -> (r: &'static str)
        ensures
            r@ == spec_content_type_str(*self),
    {
        match self {
            ContentType::Html => "text/html",
            ContentType::Jpeg => "image/jpeg",
            ContentType::Js => "text/javascript",
            ContentType::Mp4 => "video/mp4",
            ContentType::Png => "image/png",
            ContentType::Vtt => "text/vtt",
            ContentType::Webp => "image/webp",
        }
    }
}

/// The content type a filename extension resolves to, if any.
pub open spec fn extension_content_type(ext: Seq<char>) -> Option<ContentType> {
    if ext == ".jpg"@ || ext == ".jpeg"@ {
        Some(ContentType::Jpeg)
    } else if ext == ".js"@ {
        Some(ContentType::Js)
    } else if ext == ".png"@ {
        Some(ContentType::Png)
    } else if ext == ".webp"@ {
        Some(ContentType::Webp)
    } else if ext == ".vtt"@ {
        Some(ContentType::Vtt)
    } else if ext == ".mp4"@ {
        Some(ContentType::Mp4)
    } else {
        None
    }
}

/// Resolve a filename extension to a content type.
pub fn content_type_for_extension(ext: &str) -> (r: Option<ContentType>)
    ensures
        r == extension_content_type(ext@),
{
    if str_eq(ext, ".jpg") || str_eq(ext, ".jpeg") {
        Some(ContentType::Jpeg)
    } else if str_eq(ext, ".js") {
        Some(ContentType::Js)
    } else if str_eq(ext, ".png") {
        Some(ContentType::Png)
    } else if str_eq(ext, ".webp") {
        Some(ContentType::Webp)
    } else if str_eq(ext, ".vtt") {
        Some(ContentType::Vtt)
    } else if str_eq(ext, ".mp4") {
        Some(ContentType::Mp4)
    } else {
        None
    }
}

/// The value of the last `watch` query parameter, empty when there is none:
/// for one lookup, the last write to the key wins.
pub open spec fn watch_value(q: Seq<QueryModel>) -> Seq<char>
    decreases q.len(),
{
    if q.len() == 0 {
        Seq::empty()
    } else if q.last().key == "watch"@ {
        q.last().value
    } else {
        watch_value(q.drop_last())
    }
}

/// Find the value of the last `watch` query parameter.
pub fn watch_name(query: &Vec<QueryParam>) -> (r: String)
    ensures
        r@ == watch_value(Seq::new(query@.len(), |i: int| query@[i]@)),
{
    let ghost q = Seq::new(query@.len(), |i: int| query@[i]@);
    let n = query.len();
    let mut i: usize = n;
    proof {
        assert(q.take(n as int) =~= q);
    }
    while i > 0
        invariant
            0 <= i <= n,
            n == query@.len(),
            q == Seq::new(query@.len(), |t: int| query@[t]@),
            watch_value(q) == watch_value(q.take(i as int)),
        decreases i,
    {
        let param = &query[i - 1];
        if str_eq(param.key.as_str(), "watch") {
            proof {
                let t = q.take(i as int);
                assert(t.last() == q[i - 1]);
                assert(t.last().key == "watch"@);
                assert(watch_value(t) == q[i - 1].value);
            }
            return param.value.clone();
        }
        proof {
            let t = q.take(i as int);
            assert(t.last() == q[i - 1]);
            assert(t.drop_last() =~= q.take(i as int - 1));
        }
        i -= 1;
    }
    proof {
        assert(q.take(0) =~= Seq::<QueryModel>::empty());
    }
    String::new()
}

/// What a request path resolves to.
pub enum Delivery {
    /// Traversal or an unknown extension: answered `404`, before any
    /// filesystem work
    Rejected,
    /// A directory without a watch parameter: the listing page
    ListingPage,
    /// A directory with a watch parameter: the single-video page
    VideoPage { video_name: String },
    /// A file with a known non-video content type, read whole
    StaticFile { content_type: ContentType },
    /// A video, delivered whole or by ranges
    VideoFile,
}

/// The mathematical value of a delivery decision.
pub enum DeliveryModel {
    Rejected,
    ListingPage,
    VideoPage(Seq<char>),
    StaticFile(ContentType),
    VideoFile,
}

impl View for Delivery {
    type V = DeliveryModel;

    open spec fn view(&self) -> DeliveryModel {
        match self {
            Delivery::Rejected => DeliveryModel::Rejected,
            Delivery::ListingPage => DeliveryModel::ListingPage,
            Delivery::VideoPage { video_name } => DeliveryModel::VideoPage(video_name@),
            Delivery::StaticFile { content_type } => DeliveryModel::StaticFile(*content_type),
            Delivery::VideoFile => DeliveryModel::VideoFile,
        }
    }
}

/// The delivery decision for a request under a root folder.  A path with a
/// `..` segment is rejected before the filesystem is touched; a resolved
/// path ending in a separator is a directory page, watched or listed; a
/// file is served by its extension's content type, videos by the video
/// path; everything else is rejected.
pub open spec fn classify_spec(root: Seq<char>, req: RequestModel) -> DeliveryModel {
    let full = root + req.path;
    if has_dotdot(req.path) {
        DeliveryModel::Rejected
    } else if full.len() > 0 && full.last() == '/' {
        let w = watch_value(req.query);
        if w.len() == 0 {
            DeliveryModel::ListingPage
        } else {
            DeliveryModel::VideoPage(w)
        }
    } else {
        match extension_content_type(last_extension(full)) {
            Some(ContentType::Mp4) => DeliveryModel::VideoFile,
            Some(ct) => DeliveryModel::StaticFile(ct),
            None => DeliveryModel::Rejected,
        }
    }
}

/// Decide how to deliver a request, and give back the resolved full path
/// (the root folder followed by the client path).
pub fn classify(root_folder: &str, request: &Request) -> (r: (Delivery, String))
    ensures
        r.0@ == classify_spec(root_folder@, request@),
        r.1@ == root_folder@ + request@.path,
{
    let full_path = concat_strs(root_folder, request.path.as_str());
    if has_parent_dir(request.path.as_str()) {
        return (Delivery::Rejected, full_path);
    }
    let flen = full_path.as_str().unicode_len();
    if flen > 0 && full_path.as_str().get_char(flen - 1) == '/' {
        let w = watch_name(&request.query);
        if w.as_str().unicode_len() == 0 {
            proof {
                assert(w@ =~= Seq::<char>::empty());
            }
            (Delivery::ListingPage, full_path)
        } else {
            (Delivery::VideoPage { video_name: w }, full_path)
        }
    } else {
        let ext = get_last_extension(full_path.as_str());
        match content_type_for_extension(ext) {
            Some(ContentType::Mp4) => (Delivery::VideoFile, full_path),
            Some(ct) => (Delivery::StaticFile { content_type: ct }, full_path),
            None => (Delivery::Rejected, full_path),
        }
    }
}

/// A path that holds a `..` segment bounded by separators is rejected, and
/// so answered `404 Not Found`, whatever is on disk.
pub proof fn lemma_traversal_rejected(root: Seq<char>, req: RequestModel)
    requires
        has_dotdot(req.path),
    ensures
        classify_spec(root, req) == DeliveryModel::Rejected,
{
}

} // verus!
