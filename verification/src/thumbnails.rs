//! Picking the thumbnail of a video.

use crate::best::{find_last_largest, last_largest, lemma_last_largest_exists};
use crate::text::text_of;
use vstd::prelude::*;
use vstd::string::*;

verus! {

/// One thumbnail of a video.
#[derive(Debug, Clone)]
pub struct Thumbnail {
    pub url: String,
    pub width: Option<u32>,
    pub height: Option<u32>,
}

/// The model of a thumbnail.
pub struct ThumbnailView {
    pub url: Seq<char>,
    pub width: Option<u32>,
    pub height: Option<u32>,
}

impl View for Thumbnail {
    type V = ThumbnailView;

    open spec fn view(&self) -> ThumbnailView {
        ThumbnailView { url: self.url@, width: self.width, height: self.height }
    }
}

/// The models of a list of thumbnails.
pub open spec fn thumbnails_of(list: Seq<Thumbnail>) -> Seq<ThumbnailView> {
    list.map_values(|t: Thumbnail| t@)
}

/// The number, or zero where there is none.
pub open spec fn or_zero(n: Option<u32>) -> u32 {
    match n {
        Some(m) => m,
        None => 0,
    }
}

/// The area of a thumbnail; a side that is not known counts as zero.
pub open spec fn area(thumbnail: ThumbnailView) -> nat {
    (or_zero(thumbnail.width) * or_zero(thumbnail.height)) as nat
}

/// Whether the area of each thumbnail fits in 32 bits.
pub open spec fn areas_fit(list: Seq<ThumbnailView>) -> bool {
    forall|i: int| 0 <= i < list.len() ==> area(#[trigger] list[i]) <= u32::MAX
}

/// The areas of a list of thumbnails.
pub open spec fn areas(list: Seq<ThumbnailView>) -> Seq<Option<u32>> {
    list.map_values(|t: ThumbnailView| Some(area(t) as u32))
}

/// The address of the last of the largest thumbnails.
pub open spec fn largest_thumbnail(list: Seq<ThumbnailView>) -> Option<Seq<char>> {
    match last_largest(areas(list)) {
        Some(i) => Some(list[i].url),
        None => None,
    }
}

/// Multiplies the sides of a thumbnail, unless the area does not fit in 32 bits.
fn thumbnail_area(thumbnail: &Thumbnail) -> (out: Option<u32>)
    ensures
        out == if area(thumbnail@) <= u32::MAX {
            Some(area(thumbnail@) as u32)
        } else {
            None
        },
{
    let width: u32 = match thumbnail.width {
        Some(n) => n,
        None => 0,
    };
    let height: u32 = match thumbnail.height {
        Some(n) => n,
        None => 0,
    };
    assert(0 <= width * height) by (nonlinear_arith)
        requires
            0 <= width,
            0 <= height,
    ;
    width.checked_mul(height)
}

/// Reports whether the area of each thumbnail fits in 32 bits.
pub fn thumbnail_areas_fit(list: &Vec<Thumbnail>) -> (fit: bool)
    ensures
        fit == areas_fit(thumbnails_of(list@)),
{
    let mut i: usize = 0;
    while i < list.len()
        invariant
            i <= list@.len(),
            forall|j: int| 0 <= j < i ==> area((#[trigger] list@[j])@) <= u32::MAX,
        decreases list@.len() - i,
    {
        if thumbnail_area(&list[i]).is_none() {
            assert(thumbnails_of(list@)[i as int] == list@[i as int]@);
            return false;
        }
        i += 1;
    }
    assert forall|j: int| 0 <= j < list@.len() implies area(
        #[trigger] thumbnails_of(list@)[j],
    ) <= u32::MAX by {
        assert(area(list@[j]@) <= u32::MAX);
    }
    true
}

/// Copies the address of the last of the largest thumbnails.
pub fn best_thumbnail(list: &Vec<Thumbnail>) -> (url: Option<String>)
    requires
        areas_fit(thumbnails_of(list@)),
    ensures
        text_of(url) == largest_thumbnail(thumbnails_of(list@)),
{
    let ghost all = thumbnails_of(list@);
    let mut keys: Vec<Option<u32>> = Vec::new();
    let mut i: usize = 0;
    while i < list.len()
        invariant
            i <= list@.len(),
            all == thumbnails_of(list@),
            areas_fit(all),
            keys@ =~= areas(all).take(i as int),
        decreases list@.len() - i,
    {
        assert(all[i as int] == list@[i as int]@);
        keys.push(thumbnail_area(&list[i]));
        i += 1;
    }
    assert(areas(all).take(i as int) =~= areas(all));
    match find_last_largest(&keys) {
        Some(at) => Some(list[at].url.as_str().to_owned()),
        None => None,
    }
}

/// The product of both sides of a thumbnail, or zero where one of them is not known.
pub open spec fn sides(thumbnail: ThumbnailView) -> int {
    match (thumbnail.width, thumbnail.height) {
        (Some(width), Some(height)) => width * height,
        _ => 0,
    }
}

proof fn lemma_sides_make_area(thumbnail: ThumbnailView)
    ensures
        sides(thumbnail) == area(thumbnail),
{
    let w = or_zero(thumbnail.width) as int;
    let h = or_zero(thumbnail.height) as int;
    assert(w * h >= 0) by (nonlinear_arith)
        requires
            w >= 0,
            h >= 0,
    ;
    assert(0 * h == 0 && w * 0 == 0);
}

/// Of an empty list no thumbnail is picked. Of another one is: none of the others is larger, and
/// none behind it is as large. A side that is not known counts as zero.
pub proof fn lemma_largest_thumbnail_is_largest(list: Seq<ThumbnailView>)
    requires
        areas_fit(list),
    ensures
        list.len() == 0 ==> largest_thumbnail(list) is None,
        list.len() > 0 ==> exists|i: int|
            0 <= i < list.len() && largest_thumbnail(list) == Some((#[trigger] list[i]).url)
                && forall|j: int|
                0 <= j < list.len() ==> area(#[trigger] list[j]) <= area(list[i]) && sides(list[j])
                    <= sides(list[i]) && (j > i ==> sides(list[j]) < sides(list[i])),
{
    let keys = areas(list);
    if list.len() > 0 {
        assert(keys[0] is Some);
        lemma_last_largest_exists(keys);
    }
    let i = last_largest(keys)->0;
    assert forall|t: ThumbnailView| #[trigger] sides(t) == area(t) by {
        lemma_sides_make_area(t);
    }
    assert forall|j: int| 0 <= j < list.len() implies area(#[trigger] list[j]) <= area(list[i])
        && sides(list[j]) <= sides(list[i]) && (j > i ==> sides(list[j]) < sides(list[i])) by {
        assert(keys[j] == Some(area(list[j]) as u32));
        assert(keys[i] == Some(area(list[i]) as u32));
    }
}

/// Areas fit exactly where no product of two known sides is above 32 bits.
pub proof fn lemma_areas_fit_where_sides_do(list: Seq<ThumbnailView>)
    ensures
        areas_fit(list) <==> forall|i: int|
            0 <= i < list.len() ==> sides(#[trigger] list[i]) <= u32::MAX,
{
    assert forall|i: int| 0 <= i < list.len() implies sides(#[trigger] list[i]) == area(
        list[i],
    ) by {
        lemma_sides_make_area(list[i]);
    }
}

} // verus!
