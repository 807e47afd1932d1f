//! Media files of an item (images, coats of arms, logos, ...) and their
//! thumbnails on Wikimedia Commons.
use vstd::prelude::*;

use crate::json::{jarr, jget, jobj, jstr, ju64, member, opt_array, opt_get, opt_object, opt_str,
    opt_u64, opt_val, Json};
use crate::str_map::{find, StrMap};
use crate::text::{
    concat2, has_prefix, lemma_empty_str, owned, parse_u64, replace_char, replace_chars, seq_join,
    starts_with, u64_text_value, u64_to_decimal, views, decimal,
};
use crate::wikidata_item::{claims_for, string_values, WikiDataItem};

verus! {

/// The address of the Commons API that answers thumbnail queries.
pub const COMMONS_API: &'static str = "https://commons.wikimedia.org/w/api.php";

/// The media properties, each with the name its files are listed under.
pub open spec fn media_table() -> Seq<(Seq<char>, Seq<char>)> {
    seq![
        ("P18"@, "image"@),
        ("P94"@, "coat_of_arms"@),
        ("P158"@, "seal"@),
        ("P41"@, "flag"@),
        ("P10"@, "video"@),
        ("P242"@, "map"@),
        ("P948"@, "banner"@),
        ("P154"@, "logo"@),
    ]
}

/// The media properties and their names, in the order of `media_table`.
pub fn media_props() -> (r: Vec<(&'static str, &'static str)>)
    ensures
        r@.len() == media_table().len(),
        forall|i: int|
            0 <= i < r@.len() ==> (#[trigger] r@[i]).0@ == media_table()[i].0 && r@[i].1@
                == media_table()[i].1,
{
    vec![
        ("P18", "image"),
        ("P94", "coat_of_arms"),
        ("P158", "seal"),
        ("P41", "flag"),
        ("P10", "video"),
        ("P242", "map"),
        ("P948", "banner"),
        ("P154", "logo"),
    ]
}

/// The file names of an item's string claims for `p`, with `_` read as a space.
pub open spec fn cleaned_files(raw: Json, p: Seq<char>) -> Seq<Seq<char>> {
    string_values(claims_for(raw, p)).map_values(|f: Seq<char>| replace_char(f, '_', ' '))
}

/// The media lists of the first `n` properties of the table: for each
/// property the item has claims for, its name and its files.
pub open spec fn media_lists(raw: Json, n: int) -> Seq<(Seq<char>, Seq<Seq<char>>)>
    decreases n,
{
    if n <= 0 || n > media_table().len() {
        Seq::empty()
    } else {
        let prev = media_lists(raw, n - 1);
        let p = media_table()[n - 1].0;
        if claims_for(raw, p).len() > 0 {
            prev.push((media_table()[n - 1].1, cleaned_files(raw, p)))
        } else {
            prev
        }
    }
}

/// Each media entry of an item is the name of one of the first `n` media
/// properties that the item has claims for, with its files for it (`_` read
/// as a space).
pub proof fn lemma_media_entries_named(raw: Json, n: int, i: int) -> (k: int)
    requires
        0 <= n <= media_table().len(),
        0 <= i < media_lists(raw, n).len(),
    ensures
        0 <= k < n,
        claims_for(raw, media_table()[k].0).len() > 0,
        media_lists(raw, n)[i] == (media_table()[k].1, cleaned_files(raw, media_table()[k].0)),
    decreases n,
{
    let prev = media_lists(raw, n - 1);
    let p = media_table()[n - 1].0;
    if claims_for(raw, p).len() > 0 && i == prev.len() {
        n - 1
    } else {
        lemma_media_entries_named(raw, n - 1, i)
    }
}

/// Every one of the first `n` media properties that an item has claims for
/// is listed, under its name, with the item's files for it.
pub proof fn lemma_media_entries_complete(raw: Json, n: int, k: int) -> (i: int)
    requires
        0 <= k < n <= media_table().len(),
        claims_for(raw, media_table()[k].0).len() > 0,
    ensures
        0 <= i < media_lists(raw, n).len(),
        media_lists(raw, n)[i] == (media_table()[k].1, cleaned_files(raw, media_table()[k].0)),
    decreases n,
{
    let prev = media_lists(raw, n - 1);
    if k == n - 1 {
        prev.len() as int
    } else {
        let i = lemma_media_entries_complete(raw, n - 1, k);
        if claims_for(raw, media_table()[n - 1].0).len() > 0 {
            assert(media_lists(raw, n) == prev.push((media_table()[n - 1].1, cleaned_files(raw, media_table()[n - 1].0))));
        }
        i
    }
}

/// The Commons page titles of the files in `lists`, in order.
pub open spec fn file_titles(lists: Seq<(Seq<char>, Seq<Seq<char>>)>) -> Seq<Seq<char>>
    decreases lists.len(),
{
    if lists.len() == 0 {
        Seq::empty()
    } else {
        file_titles(lists.drop_last()) + lists.last().1.map_values(|f: Seq<char>| "File:"@ + f)
    }
}

/// What a thumbnail entry holds, field by field.
pub type ThumbnailView = (
    Option<Seq<char>>,
    Option<u64>,
    Option<u64>,
    Option<Seq<char>>,
    Option<Seq<char>>,
    Option<Seq<char>>,
);

/// An optional string by its characters.
pub open spec fn opt_chars(o: Option<String>) -> Option<Seq<char>> {
    match o {
        Some(s) => Some(s@),
        None => None,
    }
}

/// A single thumbnail entry.
#[derive(Debug)]
pub struct ThumbnailInfo {
    pub thumburl: Option<String>,
    pub thumbwidth: Option<u64>,
    pub thumbheight: Option<u64>,
    pub url: Option<String>,
    pub descriptionurl: Option<String>,
    pub descriptionshorturl: Option<String>,
}

impl View for ThumbnailInfo {
    type V = ThumbnailView;

    open spec fn view(&self) -> ThumbnailView {
        (
            opt_chars(self.thumburl),
            self.thumbwidth,
            self.thumbheight,
            opt_chars(self.url),
            opt_chars(self.descriptionurl),
            opt_chars(self.descriptionshorturl),
        )
    }
}

impl Default for ThumbnailInfo {
    fn default() -> (r: ThumbnailInfo)
        ensures
            r@ == (
                None::<Seq<char>>,
                None::<u64>,
                None::<u64>,
                None::<Seq<char>>,
                None::<Seq<char>>,
                None::<Seq<char>>,
            ),
    {
        ThumbnailInfo {
            thumburl: None,
            thumbwidth: None,
            thumbheight: None,
            url: None,
            descriptionurl: None,
            descriptionshorturl: None,
        }
    }
}

/// The media of an item: file lists by media name, and thumbnails by file name.
#[derive(Debug)]
pub struct MediaResult {
    pub media: StrMap<Vec<String>>,
    pub thumbnails: StrMap<ThumbnailInfo>,
}

impl Default for MediaResult {
    fn default() -> (r: MediaResult)
        ensures
            r.media@.len() == 0,
            r.thumbnails@.len() == 0,
    {
        MediaResult { media: StrMap::new(), thumbnails: StrMap::new() }
    }
}

/// The entry of a Commons page: its title without a leading `File:` and
/// with `_` read as a space (a page without a title has the empty key).
pub open spec fn page_key(page: Json) -> Seq<char> {
    let t = match jstr(member(page, "title"@)) {
        Some(t) => t,
        None => Seq::empty(),
    };
    replace_char(
        if has_prefix(t, "File:"@) {
            t.skip(5)
        } else {
            t
        },
        '_',
        ' ',
    )
}

/// The first image information of a Commons page, if it has one.
pub open spec fn page_image(page: Json) -> Option<Json> {
    match jarr(member(page, "imageinfo"@)) {
        Some(a) => if a.len() > 0 {
            Some(a[0])
        } else {
            None
        },
        None => None,
    }
}

/// The thumbnail entry that an image information describes.
pub open spec fn thumbnail_of(info: Json) -> ThumbnailView {
    (
        jstr(member(info, "thumburl"@)),
        ju64(member(info, "thumbwidth"@)),
        ju64(member(info, "thumbheight"@)),
        jstr(member(info, "url"@)),
        jstr(member(info, "descriptionurl"@)),
        jstr(member(info, "descriptionshorturl"@)),
    )
}

/// The image information given last, among `pages`, for the entry `k`.
pub open spec fn last_image_for(pages: Seq<(String, Json)>, k: Seq<char>) -> Option<Json>
    decreases pages.len(),
{
    if pages.len() == 0 {
        None
    } else {
        let page = pages.last().1;
        if page_key(page) == k && page_image(page) is Some {
            page_image(page)
        } else {
            last_image_for(pages.drop_last(), k)
        }
    }
}

/// The pages of a Commons answer: the members of `query.pages`.
pub open spec fn answer_pages(data: Json) -> Seq<(String, Json)> {
    match jobj(jget(member(data, "query"@), "pages"@)) {
        Some(p) => p,
        None => Seq::empty(),
    }
}

/// The parameters of a Commons thumbnail query for `titles` at `size` pixels.
pub open spec fn commons_params(titles: Seq<Seq<char>>, size: nat) -> Seq<(Seq<char>, Seq<char>)> {
    seq![
        ("action"@, "query"@),
        ("titles"@, seq_join(titles, "|"@)),
        ("prop"@, "imageinfo"@),
        ("iiprop"@, "url"@),
        ("iiurlwidth"@, decimal(size)),
        ("iiurlheight"@, decimal(size)),
        ("format"@, "json"@),
    ]
}

/// The thumbnail size asked for: a positive number, else none.
pub open spec fn thumb_size_of(thumb: Seq<char>) -> Option<nat> {
    match u64_text_value(thumb) {
        Some(v) => if v > 0 {
            Some(v)
        } else {
            None
        },
        None => None,
    }
}

/// Pairs of strings by their characters.
pub open spec fn pair_views(v: Seq<(String, String)>) -> Seq<(Seq<char>, Seq<char>)> {
    v.map_values(|p: (String, String)| (p.0@, p.1@))
}

/// Generates media information for a Wikidata item.
pub struct MediaGenerator;

impl MediaGenerator {
    /// The media lists of an item, and the Commons titles of their files.
    pub fn collect_media(item: &WikiDataItem) -> (r: (MediaResult, Vec<String>))
        ensures
            r.0.media@.len() == media_lists(item.raw, 8).len(),
            forall|i: int|
                0 <= i < r.0.media@.len() ==> (#[trigger] r.0.media@[i]).0 == media_lists(
                    item.raw,
                    8,
                )[i].0 && views(r.0.media@[i].1@) == media_lists(item.raw, 8)[i].1,
            r.0.thumbnails@.len() == 0,
            views(r.1@) == file_titles(media_lists(item.raw, 8)),
    {
        let props = media_props();
        let mut entries: Vec<(String, Vec<String>)> = Vec::new();
        let mut files: Vec<String> = Vec::new();
        let mut i: usize = 0;
        while i < props.len()
            invariant
                props@.len() == media_table().len(),
                forall|j: int|
                    0 <= j < props@.len() ==> (#[trigger] props@[j]).0@ == media_table()[j].0
                        && props@[j].1@ == media_table()[j].1,
                i <= props@.len(),
                entries@.len() == media_lists(item.raw, i as int).len(),
                forall|j: int|
                    0 <= j < entries@.len() ==> (#[trigger] entries@[j]).0@ == media_lists(
                        item.raw,
                        i as int,
                    )[j].0 && views(entries@[j].1@) == media_lists(item.raw, i as int)[j].1,
                views(files@) == file_titles(media_lists(item.raw, i as int)),
            decreases props.len() - i,
        {
            let (p, label) = props[i];
            assert(p@ == media_table()[i as int].0);
            if item.has_claims(p) {
                let strings = item.get_strings_for_property(p);
                let mut cleaned: Vec<String> = Vec::new();
                let ghost files0 = files@;
                let mut k: usize = 0;
                while k < strings.len()
                    invariant
                        k <= strings@.len(),
                        views(strings@) == string_values(claims_for(item.raw, p@)),
                        views(cleaned@) == views(strings@).take(k as int).map_values(
                            |f: Seq<char>| replace_char(f, '_', ' '),
                        ),
                        views(files@) == views(files0) + views(cleaned@).map_values(
                            |f: Seq<char>| "File:"@ + f,
                        ),
                    decreases strings.len() - k,
                {
                    let c = replace_chars(strings[k].as_str(), '_', ' ');
                    let t = concat2("File:", c.as_str());
                    let ghost cl0 = cleaned@;
                    let ghost fl0 = files@;
                    cleaned.push(c);
                    files.push(t);
                    proof {
                        assert(views(cleaned@) =~= views(cl0).push(c@));
                        assert(views(strings@).take(k + 1) =~= views(strings@).take(
                            k as int,
                        ).push(strings@[k as int]@));
                        assert(views(cleaned@) =~= views(strings@).take(k + 1).map_values(
                            |f: Seq<char>| replace_char(f, '_', ' '),
                        ));
                        assert(views(files@) =~= views(fl0).push(t@));
                        assert(views(cleaned@).map_values(|f: Seq<char>| "File:"@ + f) =~= views(
                            cl0,
                        ).map_values(|f: Seq<char>| "File:"@ + f).push("File:"@ + c@));
                    }
                    k = k + 1;
                }
                assert(views(strings@).take(strings@.len() as int) =~= views(strings@));
                let ghost e0 = entries@;
                entries.push((owned(label), cleaned));
                proof {
                    let l = media_lists(item.raw, i + 1);
                    assert(l == media_lists(item.raw, i as int).push(
                        (media_table()[i as int].1, cleaned_files(item.raw, p@)),
                    ));
                    assert(views(entries@.last().1@) =~= cleaned_files(item.raw, p@));
                    assert forall|j: int| 0 <= j < entries@.len() implies (#[trigger] entries@[j]).0@
                        == l[j].0 && views(entries@[j].1@) == l[j].1 by {
                        if j < e0.len() {
                            assert(entries@[j] == e0[j]);
                        }
                    }
                    assert(l.drop_last() =~= media_lists(item.raw, i as int));
                }
            }
            i = i + 1;
        }
        let result = MediaResult { media: StrMap::from_entries(entries), thumbnails: StrMap::new() };
        (result, files)
    }

    /// The parameters of the Commons query for the thumbnails of `files` at
    /// the size `thumb` asks for; none when there are no files or `thumb` is
    /// not a positive number.
    pub fn thumb_request(files: &Vec<String>, thumb: &str) -> (r: Option<Vec<(String, String)>>)
        ensures
            match r {
                Some(params) => files@.len() > 0 && thumb_size_of(thumb@) is Some && pair_views(
                    params@,
                ) == commons_params(views(files@), thumb_size_of(thumb@)->0),
                None => files@.len() == 0 || thumb_size_of(thumb@) is None,
            },
    {
        if files.len() == 0 {
            return None;
        }
        let size = match parse_u64(thumb) {
            Some(v) => {
                if v == 0 {
                    return None;
                }
                v
            },
            None => {
                return None;
            },
        };
        let titles = crate::text::join(files, "|");
        let size_text = u64_to_decimal(size);
        let params = vec![
            (owned("action"), owned("query")),
            (owned("titles"), titles),
            (owned("prop"), owned("imageinfo")),
            (owned("iiprop"), owned("url")),
            (owned("iiurlwidth"), owned(size_text.as_str())),
            (owned("iiurlheight"), size_text),
            (owned("format"), owned("json")),
        ];
        assert(pair_views(params@) =~= commons_params(views(files@), size as nat));
        Some(params)
    }

    /// The entry key of a Commons page title.
    pub fn page_key(title: &str) -> (r: String)
        ensures
            r@ == replace_char(
                if has_prefix(title@, "File:"@) {
                    title@.skip(5)
                } else {
                    title@
                },
                '_',
                ' ',
            ),
    {
        if starts_with(title, "File:") {
            proof {
                reveal_strlit("File:");
            }
            let n = title.unicode_len();
            let rest = title.substring_char(5, n);
            assert(rest@ =~= title@.skip(5));
            replace_chars(rest, '_', ' ')
        } else {
            replace_chars(title, '_', ' ')
        }
    }

    /// The thumbnail entry of an image information.
    pub fn thumbnail_info(info: &Json) -> (r: ThumbnailInfo)
        ensures
            r@ == thumbnail_of(*info),
    {
        let o = Some(info);
        let thumburl = match opt_str(opt_get(o, "thumburl")) {
            Some(s) => Some(owned(s)),
            None => None,
        };
        let url = match opt_str(opt_get(o, "url")) {
            Some(s) => Some(owned(s)),
            None => None,
        };
        let descriptionurl = match opt_str(opt_get(o, "descriptionurl")) {
            Some(s) => Some(owned(s)),
            None => None,
        };
        let descriptionshorturl = match opt_str(opt_get(o, "descriptionshorturl")) {
            Some(s) => Some(owned(s)),
            None => None,
        };
        ThumbnailInfo {
            thumburl,
            thumbwidth: opt_u64(opt_get(o, "thumbwidth")),
            thumbheight: opt_u64(opt_get(o, "thumbheight")),
            url,
            descriptionurl,
            descriptionshorturl,
        }
    }

    /// Enter the thumbnails of a Commons answer: each page with image
    /// information stores it under the page's key, a later page replacing an
    /// earlier one with the same key.
    pub fn absorb_thumbnails(result: &mut MediaResult, data: &Json)
        ensures
            final(result).media@ == old(result).media@,
            forall|k: Seq<char>|
                #![trigger find(final(result).thumbnails@, k)]
                match last_image_for(answer_pages(*data), k) {
                    Some(info) => match find(final(result).thumbnails@, k) {
                        Some(t) => t@ == thumbnail_of(info),
                        None => false,
                    },
                    None => find(final(result).thumbnails@, k) == find(
                        old(result).thumbnails@,
                        k,
                    ),
                },
    {
        let pages = match opt_object(opt_get(opt_get(Some(data), "query"), "pages")) {
            Some(p) => p,
            None => {
                assert(answer_pages(*data) =~= Seq::<(String, Json)>::empty());
                return;
            },
        };
        let ghost ps = pages@;
        assert(ps == answer_pages(*data));
        let mut i: usize = 0;
        while i < pages.len()
            invariant
                ps == pages@,
                i <= ps.len(),
                result.media@ == old(result).media@,
                forall|k: Seq<char>|
                    #![trigger find(result.thumbnails@, k)]
                    match last_image_for(ps.take(i as int), k) {
                        Some(info) => match find(result.thumbnails@, k) {
                            Some(t) => t@ == thumbnail_of(info),
                            None => false,
                        },
                        None => find(result.thumbnails@, k) == find(old(result).thumbnails@, k),
                    },
            decreases pages.len() - i,
        {
            let page = &pages[i].1;
            let title = match opt_str(opt_get(Some(page), "title")) {
                Some(t) => t,
                None => "",
            };
            proof {
                lemma_empty_str();
            }
            assert(title@ == match jstr(member(*page, "title"@)) {
                Some(t) => t,
                None => Seq::<char>::empty(),
            });
            let key = Self::page_key(title);
            assert(key@ == page_key(*page));
            let first = match opt_array(opt_get(Some(page), "imageinfo")) {
                Some(arr) => if arr.len() > 0 {
                    Some(&arr[0])
                } else {
                    None
                },
                None => None,
            };
            assert(opt_val(first) == page_image(*page));
            assert(ps.take(i + 1).drop_last() =~= ps.take(i as int));
            assert(ps.take(i + 1).last() == ps[i as int]);
            match first {
                Some(info) => {
                    let t = Self::thumbnail_info(info);
                    result.thumbnails.insert(key, t);
                },
                None => {},
            }
            i = i + 1;
        }
        assert(ps.take(ps.len() as int) =~= ps);
    }
}

/// The media names searched for a thumbnail to show, in order.
pub open spec fn thumb_media_order() -> Seq<Seq<char>> {
    seq!["image"@, "coat_of_arms"@, "logo"@, "flag"@, "seal"@, "banner"@, "map"@, "osm"@]
}

/// The thumbnail address of an entry and the page it links to (the
/// description page, else the thumbnail itself); none without a thumbnail.
pub open spec fn shown_thumb(info: ThumbnailView) -> Option<(Seq<char>, Seq<char>)> {
    match info.0 {
        Some(t) => Some(
            (
                t,
                match info.4 {
                    Some(d) => d,
                    None => t,
                },
            ),
        ),
        None => None,
    }
}

/// The first of `files` with a thumbnail, as `shown_thumb` gives it.
pub open spec fn first_thumb_files(
    files: Seq<Seq<char>>,
    thumbs: Seq<(Seq<char>, ThumbnailInfo)>,
) -> Option<(Seq<char>, Seq<char>)>
    decreases files.len(),
{
    if files.len() == 0 {
        None
    } else {
        let here = match find(thumbs, files[0]) {
            Some(info) => shown_thumb(info@),
            None => None,
        };
        if here is Some {
            here
        } else {
            first_thumb_files(files.drop_first(), thumbs)
        }
    }
}

/// The first thumbnail among the files listed under `names`, in that order.
pub open spec fn first_thumb(
    names: Seq<Seq<char>>,
    media: Seq<(Seq<char>, Vec<String>)>,
    thumbs: Seq<(Seq<char>, ThumbnailInfo)>,
) -> Option<(Seq<char>, Seq<char>)>
    decreases names.len(),
{
    if names.len() == 0 {
        None
    } else {
        let here = match find(media, names[0]) {
            Some(files) => first_thumb_files(views(files@), thumbs),
            None => None,
        };
        if here is Some {
            here
        } else {
            first_thumb(names.drop_first(), media, thumbs)
        }
    }
}

fn first_in_files(files: &Vec<String>, thumbs: &StrMap<ThumbnailInfo>) -> (r: Option<(String, String)>)
    ensures
        match r {
            Some(p) => first_thumb_files(views(files@), thumbs@) == Some((p.0@, p.1@)),
            None => first_thumb_files(views(files@), thumbs@) is None,
        },
{
    let ghost fs = views(files@);
    let mut i: usize = 0;
    assert(fs.skip(0) =~= fs);
    while i < files.len()
        invariant
            fs == views(files@),
            i <= files@.len(),
            first_thumb_files(fs, thumbs@) == first_thumb_files(fs.skip(i as int), thumbs@),
        decreases files.len() - i,
    {
        assert(fs.skip(i as int)[0] == files@[i as int]@);
        assert(fs.skip(i as int).drop_first() =~= fs.skip(i + 1));
        match thumbs.get(files[i].as_str()) {
            Some(info) => {
                match &info.thumburl {
                    Some(t) => {
                        let d = match &info.descriptionurl {
                            Some(d) => owned(d.as_str()),
                            None => owned(t.as_str()),
                        };
                        return Some((owned(t.as_str()), d));
                    },
                    None => {},
                }
            },
            None => {},
        }
        i = i + 1;
    }
    None
}

impl MediaGenerator {
    /// The thumbnail to show for an item: the first file, by media name in
    /// the order `image`, `coat_of_arms`, `logo`, `flag`, `seal`, `banner`,
    /// `map`, `osm`, that has a thumbnail address; with it the page it links
    /// to.
    pub fn first_thumbnail(m: &MediaResult) -> (r: Option<(String, String)>)
        ensures
            match r {
                Some(p) => first_thumb(thumb_media_order(), m.media@, m.thumbnails@) == Some(
                    (p.0@, p.1@),
                ),
                None => first_thumb(thumb_media_order(), m.media@, m.thumbnails@) is None,
            },
    {
        let names = vec!["image", "coat_of_arms", "logo", "flag", "seal", "banner", "map", "osm"];
        let ghost ns = thumb_media_order();
        assert(names@.len() == ns.len());
        assert forall|k: int| 0 <= k < ns.len() implies (#[trigger] names@[k])@ == ns[k] by {}
        let mut i: usize = 0;
        assert(ns.skip(0) =~= ns);
        while i < names.len()
            invariant
                ns == thumb_media_order(),
                names@.len() == ns.len(),
                forall|k: int| 0 <= k < ns.len() ==> (#[trigger] names@[k])@ == ns[k],
                i <= ns.len(),
                first_thumb(ns, m.media@, m.thumbnails@) == first_thumb(
                    ns.skip(i as int),
                    m.media@,
                    m.thumbnails@,
                ),
            decreases names.len() - i,
        {
            assert(ns.skip(i as int)[0] == names@[i as int]@);
            assert(ns.skip(i as int).drop_first() =~= ns.skip(i + 1));
            match m.media.get(names[i]) {
                Some(files) => {
                    let found = first_in_files(files, &m.thumbnails);
                    if found.is_some() {
                        assert(ns.skip(i as int).len() > 0);
                        assert(find(m.media@, ns.skip(i as int)[0]) == Some(*files));
                        return found;
                    }
                },
                None => {},
            }
            i = i + 1;
        }
        None
    }
}

} // verus!
