//! Links for a directory listing: folders and videos found among the
//! entries of a folder, sorted by basename, each with its poster image
//! extension if one of the entries provides it.

use vstd::prelude::*;
use vstd::string::StrSliceExecFns;
use vstd::string::StringExecFns;
use vstd::string::StringSliceAdditionalSpecFns;
use vstd::utf8::encode_utf8;

use crate::name_parts::{spec_basename, spec_extension, NameParts};
use crate::text::str_eq;

verus! {

/// Information for a link to a video or video collection.
pub struct LinkInfo {
    /// Whether the name is a video collection
    pub is_folder: bool,
    /// Basename of a video file or folder
    pub basename: String,
    /// "", ".jpg", ".jpeg", ".png", or ".webp"
    pub poster_extension: String,
}

/// The mathematical value of a listing link.
#[verifier::ext_equal]
pub struct LinkModel {
    pub is_folder: bool,
    pub basename: Seq<char>,
    pub poster_extension: Seq<char>,
}

impl View for LinkInfo {
    type V = LinkModel;

    open spec fn view(&self) -> LinkModel {
        LinkModel {
            is_folder: self.is_folder,
            basename: self.basename@,
            poster_extension: self.poster_extension@,
        }
    }
}

// ---------------------------------------------------------------------------
// Classifying directory entries
// ---------------------------------------------------------------------------

/// An extension that names a poster image.
pub open spec fn is_poster_extension(ext: Seq<char>) -> bool {
    ext == ".jpg"@ || ext == ".jpeg"@ || ext == ".png"@ || ext == ".webp"@
}

/// The listing entries drawn from the names, in their order: a name with
/// no dot is a folder, a `.mp4` name is a video under its basename, and
/// every other name contributes no link.
pub open spec fn raw_links(names: Seq<Seq<char>>) -> Seq<LinkModel>
    decreases names.len(),
{
    if names.len() == 0 {
        Seq::empty()
    } else {
        let rest = raw_links(names.drop_last());
        let name = names.last();
        if spec_extension(name).len() == 0 {
            rest.push(
                LinkModel { is_folder: true, basename: name, poster_extension: Seq::empty() },
            )
        } else if spec_extension(name) == ".mp4"@ {
            rest.push(
                LinkModel {
                    is_folder: false,
                    basename: spec_basename(name),
                    poster_extension: Seq::empty(),
                },
            )
        } else {
            rest
        }
    }
}

/// The poster entries drawn from the names, in their order: basename and
/// extension of every name with a poster-image extension.
pub open spec fn poster_entries(names: Seq<Seq<char>>) -> Seq<(Seq<char>, Seq<char>)>
    decreases names.len(),
{
    if names.len() == 0 {
        Seq::empty()
    } else {
        let rest = poster_entries(names.drop_last());
        let name = names.last();
        if is_poster_extension(spec_extension(name)) {
            rest.push((spec_basename(name), spec_extension(name)))
        } else {
            rest
        }
    }
}

/// The poster extension for a basename: the extension of the last poster
/// entry with that basename, empty when there is none.
pub open spec fn poster_for(posters: Seq<(Seq<char>, Seq<char>)>, basename: Seq<char>) -> Seq<
    char,
>
    decreases posters.len(),
{
    if posters.len() == 0 {
        Seq::empty()
    } else if posters.last().0 == basename {
        posters.last().1
    } else {
        poster_for(posters.drop_last(), basename)
    }
}

/// The listing entries with their posters attached.
pub open spec fn attached_links(names: Seq<Seq<char>>) -> Seq<LinkModel> {
    Seq::new(
        raw_links(names).len(),
        |i: int|
            LinkModel {
                is_folder: raw_links(names)[i].is_folder,
                basename: raw_links(names)[i].basename,
                poster_extension: poster_for(
                    poster_entries(names),
                    raw_links(names)[i].basename,
                ),
            },
    )
}

// ---------------------------------------------------------------------------
// Ordering links by basename
// ---------------------------------------------------------------------------

/// Lexicographic order on byte sequences.
pub open spec fn bytes_le(a: Seq<u8>, b: Seq<u8>) -> bool
    decreases a.len(),
{
    if a.len() == 0 {
        true
    } else if b.len() == 0 {
        false
    } else if a[0] < b[0] {
        true
    } else if a[0] > b[0] {
        false
    } else {
        bytes_le(a.drop_first(), b.drop_first())
    }
}

/// Links are ordered by the bytes of their basenames.
pub open spec fn link_le(a: LinkModel, b: LinkModel) -> bool {
    bytes_le(encode_utf8(a.basename), encode_utf8(b.basename))
}

/// Adjacent links are in order.
pub open spec fn links_sorted(s: Seq<LinkModel>) -> bool {
    forall|i: int| 0 <= i < s.len() - 1 ==> link_le(#[trigger] s[i], s[i + 1])
}

/// The byte order is total.
pub proof fn lemma_bytes_le_total(a: Seq<u8>, b: Seq<u8>)
    ensures
        bytes_le(a, b) || bytes_le(b, a),
    decreases a.len(),
{
    if a.len() > 0 && b.len() > 0 && a[0] == b[0] {
        lemma_bytes_le_total(a.drop_first(), b.drop_first());
    }
}

/// Insert a link into an ordered sequence, after every link that is not
/// strictly greater, so that links with equal basenames keep their order.
pub open spec fn insert_link(l: LinkModel, s: Seq<LinkModel>) -> Seq<LinkModel>
    decreases s.len(),
{
    if s.len() == 0 {
        seq![l]
    } else if link_le(s.last(), l) {
        s.push(l)
    } else {
        insert_link(l, s.drop_last()).push(s.last())
    }
}

/// Sort links by basename, stably: each link is inserted after its equals.
pub open spec fn sort_links(s: Seq<LinkModel>) -> Seq<LinkModel>
    decreases s.len(),
{
    if s.len() == 0 {
        Seq::empty()
    } else {
        insert_link(s.last(), sort_links(s.drop_last()))
    }
}

/// Inserting into an ordered sequence keeps it ordered and adds exactly the
/// inserted link.
proof fn lemma_insert_link(l: LinkModel, s: Seq<LinkModel>)
    requires
        links_sorted(s),
    ensures
        links_sorted(insert_link(l, s)),
        insert_link(l, s).len() == s.len() + 1,
        insert_link(l, s).to_multiset() == s.to_multiset().insert(l),
        insert_link(l, s).last() == l || (s.len() > 0 && insert_link(l, s).last() == s.last()),
    decreases s.len(),
{
    let r = insert_link(l, s);
    if s.len() == 0 {
        assert(s =~= Seq::<LinkModel>::empty());
        Seq::<LinkModel>::empty().to_multiset_ensures();
        assert(seq![l] =~= Seq::<LinkModel>::empty().push(l));
        assert(seq![l].to_multiset() =~= s.to_multiset().insert(l));
    } else if link_le(s.last(), l) {
        assert(links_sorted(r)) by {
            assert(forall|i: int| 0 <= i < s.len() - 1 ==> link_le(#[trigger] r[i], r[i + 1]));
        }
        s.to_multiset_ensures();
    } else {
        let p = s.drop_last();
        assert(links_sorted(p)) by {
            assert(forall|i: int| 0 <= i < p.len() - 1 ==> link_le(#[trigger] s[i], s[i + 1]));
        }
        lemma_insert_link(l, p);
        let q = insert_link(l, p);
        assert(r == q.push(s.last()));
        assert(links_sorted(r)) by {
            assert(forall|i: int| 0 <= i < q.len() - 1 ==> link_le(#[trigger] q[i], q[i + 1]));
            if q.last() == l {
                lemma_bytes_le_total(encode_utf8(s.last().basename), encode_utf8(l.basename));
                assert(link_le(q[q.len() - 1], s.last()));
            } else {
                assert(q.last() == p.last());
                assert(link_le(p[p.len() - 1], s[s.len() - 1]));
            }
            assert(forall|i: int|
                0 <= i < r.len() - 1 ==> link_le(#[trigger] r[i], r[i + 1]));
        }
        assert(r.to_multiset() =~= s.to_multiset().insert(l)) by {
            p.to_multiset_ensures();
            q.to_multiset_ensures();
            assert(s =~= p.push(s.last()));
            assert(s.to_multiset() =~= p.to_multiset().insert(s.last()));
            assert(r.to_multiset() =~= q.to_multiset().insert(s.last()));
        }
    }
}

/// A sorted listing is sorted: the links stand in basename order.
pub proof fn lemma_sort_links_sorted(s: Seq<LinkModel>)
    ensures
        links_sorted(sort_links(s)),
        sort_links(s).len() == s.len(),
    decreases s.len(),
{
    if s.len() > 0 {
        lemma_sort_links_sorted(s.drop_last());
        lemma_insert_link(s.last(), sort_links(s.drop_last()));
    }
}

/// Sorting neither adds nor loses a link: the sorted listing holds exactly
/// the links of the unsorted one.
pub proof fn lemma_sort_links_permutation(s: Seq<LinkModel>)
    ensures
        sort_links(s).to_multiset() == s.to_multiset(),
    decreases s.len(),
{
    if s.len() == 0 {
        assert(sort_links(s) =~= s);
    } else {
        let p = s.drop_last();
        lemma_sort_links_permutation(p);
        lemma_sort_links_sorted(p);
        lemma_insert_link(s.last(), sort_links(p));
        p.to_multiset_ensures();
        assert(s =~= p.push(s.last()));
        assert(s.to_multiset() =~= p.to_multiset().insert(s.last()));
    }
}

// ---------------------------------------------------------------------------
// The executable listing
// ---------------------------------------------------------------------------

/// Whether `a` comes no later than `b` in basename order.
fn link_le_exec(a: &LinkInfo, b: &LinkInfo) -> (r: bool)
    ensures
        r == link_le(a@, b@),
{
    let x = a.basename.as_str().as_bytes();
    let y = b.basename.as_str().as_bytes();
    let n = x.len();
    let m = y.len();
    let mut i: usize = 0;
    proof {
        assert(x@.skip(0) =~= x@);
        assert(y@.skip(0) =~= y@);
    }
    loop
        invariant
            0 <= i <= n,
            i <= m,
            n == x@.len(),
            m == y@.len(),
            x@ == encode_utf8(a.basename@),
            y@ == encode_utf8(b.basename@),
            bytes_le(x@, y@) == bytes_le(x@.skip(i as int), y@.skip(i as int)),
        decreases n - i,
    {
        if i >= n {
            proof {
                assert(x@.skip(i as int).len() == 0);
            }
            return true;
        }
        if i >= m {
            proof {
                assert(y@.skip(i as int).len() == 0);
                assert(x@.skip(i as int).len() > 0);
            }
            return false;
        }
        proof {
            assert(x@.skip(i as int)[0] == x@[i as int]);
            assert(y@.skip(i as int)[0] == y@[i as int]);
        }
        if x[i] < y[i] {
            return true;
        }
        if x[i] > y[i] {
            return false;
        }
        proof {
            assert(x@.skip(i as int).drop_first() =~= x@.skip(i as int + 1));
            assert(y@.skip(i as int).drop_first() =~= y@.skip(i as int + 1));
        }
        i += 1;
    }
}

/// The models of a sequence of links.
pub open spec fn links_view(s: Seq<LinkInfo>) -> Seq<LinkModel> {
    Seq::new(s.len(), |i: int| s[i]@)
}

/// The views of a sequence of names.
pub open spec fn names_view(s: Seq<String>) -> Seq<Seq<char>> {
    Seq::new(s.len(), |i: int| s[i]@)
}

/// The views of a sequence of poster entries.
pub open spec fn posters_view(s: Seq<(String, String)>) -> Seq<(Seq<char>, Seq<char>)> {
    Seq::new(s.len(), |i: int| (s[i].0@, s[i].1@))
}

/// Inserting at the position that keeps the order is what `insert_link`
/// does.
proof fn lemma_insert_link_at(l: LinkModel, s: Seq<LinkModel>, pos: int)
    requires
        0 <= pos <= s.len(),
        pos == 0 || link_le(s[pos - 1], l),
        forall|t: int| pos <= t < s.len() ==> !link_le(#[trigger] s[t], l),
    ensures
        insert_link(l, s) == s.insert(pos, l),
    decreases s.len(),
{
    if s.len() == 0 {
        assert(insert_link(l, s) =~= s.insert(0, l));
    } else if link_le(s.last(), l) {
        assert(pos == s.len());
        assert(s.push(l) =~= s.insert(pos, l));
    } else {
        assert(pos < s.len());
        let p = s.drop_last();
        lemma_insert_link_at(l, p, pos);
        assert(insert_link(l, p).push(s.last()) =~= s.insert(pos, l));
    }
}

/// The extension literals are distinct.
proof fn lemma_ext_literals()
    ensures
        ".mp4"@ != ".jpg"@,
        ".mp4"@ != ".jpeg"@,
        ".mp4"@ != ".png"@,
        ".mp4"@ != ".webp"@,
        ".mp4"@.len() == 4,
        ".jpg"@.len() == 4,
        ".jpeg"@.len() == 5,
        ".png"@.len() == 4,
        ".webp"@.len() == 5,
{
    reveal_strlit(".mp4");
    reveal_strlit(".jpg");
    reveal_strlit(".jpeg");
    reveal_strlit(".png");
    reveal_strlit(".webp");
    assert(".mp4"@[1] == 'm');
    assert(".jpg"@[1] == 'j');
    assert(".png"@[1] == 'p');
}

/// Whether the extension names a poster image.
fn is_poster_extension_exec(ext: &str) -> (r: bool)
    ensures
        r == is_poster_extension(ext@),
{
    str_eq(ext, ".jpg") || str_eq(ext, ".jpeg") || str_eq(ext, ".png") || str_eq(ext, ".webp")
}

/// The poster extension recorded last for this basename, if any.
fn find_poster(posters: &Vec<(String, String)>, basename: &str) -> (r: String)
    ensures
        r@ == poster_for(posters_view(posters@), basename@),
{
    let ghost pv = posters_view(posters@);
    let n = posters.len();
    let mut i: usize = n;
    proof {
        assert(pv.take(n as int) =~= pv);
    }
    while i > 0
        invariant
            0 <= i <= n,
            n == posters@.len(),
            pv == posters_view(posters@),
            poster_for(pv, basename@) == poster_for(pv.take(i as int), basename@),
        decreases i,
    {
        let entry = &posters[i - 1];
        proof {
            let t = pv.take(i as int);
            assert(t.last() == pv[i - 1]);
            assert(t.drop_last() =~= pv.take(i as int - 1));
        }
        if str_eq(entry.0.as_str(), basename) {
            return entry.1.clone();
        }
        i -= 1;
    }
    proof {
        assert(pv.take(0) =~= Seq::<(Seq<char>, Seq<char>)>::empty());
    }
    String::new()
}

/// Insert a link into an ordered vector, after every link that is not
/// strictly greater.
fn insert_sorted(links: &mut Vec<LinkInfo>, l: LinkInfo)
    ensures
        links_view(final(links)@) == insert_link(l@, links_view(old(links)@)),
{
    let ghost lv = links_view(links@);
    let mut pos = links.len();
    loop
        invariant_except_break
            0 <= pos <= links@.len(),
            links@ == old(links)@,
            lv == links_view(links@),
            forall|t: int| pos <= t < lv.len() ==> !link_le(#[trigger] lv[t], l@),
        invariant
            links@ == old(links)@,
            lv == links_view(links@),
        ensures
            0 <= pos <= links@.len(),
            pos == 0 || link_le(lv[pos as int - 1], l@),
            forall|t: int| pos <= t < lv.len() ==> !link_le(#[trigger] lv[t], l@),
        decreases pos,
    {
        if pos == 0 {
            break;
        }
        if link_le_exec(&links[pos - 1], &l) {
            break;
        }
        proof {
            assert(lv[pos as int - 1] == links@[pos as int - 1]@);
        }
        pos -= 1;
    }
    links.insert(pos, l);
    proof {
        lemma_insert_link_at(l@, lv, pos as int);
        assert(links_view(links@) =~= lv.insert(pos as int, l@));
    }
}

impl LinkInfo {
    /// List the links for the entries of a folder: folders and `.mp4`
    /// videos, sorted by basename, each with the poster extension recorded
    /// last for its basename.
    pub fn list(names: &Vec<String>) -> (r: Vec<LinkInfo>)
        ensures
            links_view(r@) == sort_links(attached_links(names_view(names@))),
    {
        let ghost nv = names_view(names@);

        // Classify the entries into links and poster entries
        let mut entries: Vec<LinkInfo> = Vec::new();
        let mut posters: Vec<(String, String)> = Vec::new();
        let n = names.len();
        let mut i: usize = 0;
        proof {
            assert(nv.take(0) =~= Seq::<Seq<char>>::empty());
            assert(links_view(entries@) =~= Seq::<LinkModel>::empty());
            assert(posters_view(posters@) =~= Seq::<(Seq<char>, Seq<char>)>::empty());
        }
        while i < n
            invariant
                0 <= i <= n,
                n == names@.len(),
                nv == names_view(names@),
                links_view(entries@) == raw_links(nv.take(i as int)),
                posters_view(posters@) == poster_entries(nv.take(i as int)),
            decreases n - i,
        {
            let name = &names[i];
            let parts = NameParts::new(name.as_str());
            proof {
                reveal_strlit(".mp4");
                reveal_strlit(".jpg");
                reveal_strlit(".jpeg");
                reveal_strlit(".png");
                reveal_strlit(".webp");
                lemma_ext_literals();
                let t = nv.take(i as int + 1);
                assert(t.drop_last() =~= nv.take(i as int));
                assert(t.last() == name@);
            }
            if parts.extension.unicode_len() == 0 {
                entries.push(
                    LinkInfo {
                        is_folder: true,
                        basename: name.clone(),
                        poster_extension: String::new(),
                    },
                );
                proof {
                    assert(links_view(entries@) =~= raw_links(nv.take(i as int)).push(
                        LinkModel {
                            is_folder: true,
                            basename: name@,
                            poster_extension: Seq::empty(),
                        },
                    ));
                    assert(!is_poster_extension(spec_extension(name@)));
                    assert(posters_view(posters@) == poster_entries(nv.take(i as int + 1)));
                }
            } else if str_eq(parts.extension, ".mp4") {
                entries.push(
                    LinkInfo {
                        is_folder: false,
                        basename: String::from_str(parts.basename),
                        poster_extension: String::new(),
                    },
                );
                proof {
                    assert(links_view(entries@) =~= raw_links(nv.take(i as int)).push(
                        LinkModel {
                            is_folder: false,
                            basename: spec_basename(name@),
                            poster_extension: Seq::empty(),
                        },
                    ));
                    assert(!is_poster_extension(spec_extension(name@)));
                    assert(posters_view(posters@) == poster_entries(nv.take(i as int + 1)));
                }
            } else if is_poster_extension_exec(parts.extension) {
                posters.push((String::from_str(parts.basename), String::from_str(parts.extension)));
                proof {
                    assert(posters_view(posters@) =~= poster_entries(nv.take(i as int)).push(
                        (spec_basename(name@), spec_extension(name@)),
                    ));
                    assert(spec_extension(name@).len() != 0);
                    assert(spec_extension(name@) != ".mp4"@);
                    assert(links_view(entries@) == raw_links(nv.take(i as int + 1)));
                }
            } else {
                proof {
                    assert(links_view(entries@) =~= raw_links(nv.take(i as int + 1)));
                    assert(posters_view(posters@) =~= poster_entries(nv.take(i as int + 1)));
                }
            }
            i += 1;
        }
        proof {
            assert(nv.take(n as int) =~= nv);
        }

        // Attach the poster extensions
        let mut attached: Vec<LinkInfo> = Vec::new();
        let en = entries.len();
        let mut e: usize = 0;
        proof {
            assert(links_view(attached@) =~= attached_links(nv).take(0));
        }
        while e < en
            invariant
                0 <= e <= en,
                en == entries@.len(),
                nv == names_view(names@),
                links_view(entries@) == raw_links(nv),
                posters_view(posters@) == poster_entries(nv),
                links_view(attached@) == attached_links(nv).take(e as int),
            decreases en - e,
        {
            let entry = &entries[e];
            let poster = find_poster(&posters, entry.basename.as_str());
            proof {
                assert(attached_links(nv).take(e as int).len() == e as int);
            }
            attached.push(
                LinkInfo {
                    is_folder: entry.is_folder,
                    basename: entry.basename.clone(),
                    poster_extension: poster,
                },
            );
            proof {
                assert(entry@ == raw_links(nv)[e as int]);
                assert(links_view(attached@) =~= attached_links(nv).take(e as int + 1));
            }
            e += 1;
        }
        proof {
            assert(attached_links(nv).take(en as int) =~= attached_links(nv));
        }

        // Sort the links by basename
        let mut result: Vec<LinkInfo> = Vec::new();
        let ghost av = links_view(attached@);
        let mut k: usize = 0;
        proof {
            assert(av.take(0) =~= Seq::<LinkModel>::empty());
            assert(links_view(result@) =~= Seq::<LinkModel>::empty());
        }
        while k < en
            invariant
                0 <= k <= en,
                en == attached@.len(),
                av == links_view(attached@),
                av == attached_links(nv),
                nv == names_view(names@),
                links_view(result@) == sort_links(av.take(k as int)),
            decreases en - k,
        {
            let a = &attached[k];
            let link = LinkInfo {
                is_folder: a.is_folder,
                basename: a.basename.clone(),
                poster_extension: a.poster_extension.clone(),
            };
            proof {
                assert(link@ == av[k as int]);
            }
            insert_sorted(&mut result, link);
            proof {
                let t = av.take(k as int + 1);
                assert(t.drop_last() =~= av.take(k as int));
                assert(t.last() == av[k as int]);
            }
            k += 1;
        }
        proof {
            assert(av.take(en as int) =~= av);
        }
        result
    }
}

} // verus!
