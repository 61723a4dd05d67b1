//! The media resolver: filters the shared media pool down to the objects
//! a post's attachment keys refer to, keeping pool order, and keeps only
//! those that can actually be rendered — photos with a url and complete
//! geometry. An object with partial metadata is simply dropped; partial
//! metadata is expected from the upstream API and never fails a render.

use crate::model::Media;
use crate::model::MediaKind;
use crate::model::MediaView;
use vstd::prelude::*;

verus! {

/// A media object is renderable when it is a photo with a url and both
/// dimensions present.
pub open spec fn renderable(m: MediaView) -> bool {
    m.kind == MediaKind::Photo && m.url is Some && m.width is Some && m.height is Some
}

/// The renderable media objects of the pool that one of the keys refers
/// to, in pool order.
pub open spec fn media_filter_spec(pool: Seq<MediaView>, keys: Seq<Seq<char>>) -> Seq<MediaView> {
    pool.filter(|m: MediaView| keys.contains(m.key) && renderable(m))
}

/// Filtering commutes with appending one element at the end.
pub(crate) proof fn lemma_filter_push<A>(s: Seq<A>, x: A, pred: spec_fn(A) -> bool)
    ensures
        s.push(x).filter(pred) == if pred(x) {
            s.filter(pred).push(x)
        } else {
            s.filter(pred)
        },
{
    reveal_with_fuel(Seq::filter, 2);
    assert(s.push(x).drop_last() =~= s);
    assert(s.push(x).last() == x);
}

/// Whether one of the keys is `key`.
fn contains_key(keys: &Vec<String>, key: &String) -> (r: bool)
    ensures
        r == keys.deep_view().contains(key@),
{
    let n = keys.len();
    let mut i: usize = 0;
    while i < n
        invariant
            i <= n,
            n == keys@.len(),
            forall|t: int| 0 <= t < i ==> (#[trigger] keys.deep_view()[t]) != key@,
        decreases n - i,
    {
        if keys[i].eq(key) {
            proof {
                assert(keys.deep_view()[i as int] == key@);
            }
            return true;
        }
        i = i + 1;
    }
    false
}

/// Filters the pool down to the renderable media the attachment keys
/// refer to, preserving pool order. A matching object that is not a photo
/// or lacks url, width or height is dropped, never an error.
pub fn resolve_media(attachment_keys: &Vec<String>, media_pool: &Vec<Media>) -> (r: Vec<Media>)
    ensures
        r.deep_view() == media_filter_spec(media_pool.deep_view(), attachment_keys.deep_view()),
{
    let ghost keysv = attachment_keys.deep_view();
    let ghost poolv = media_pool.deep_view();
    let ghost pred = (|m: MediaView| keysv.contains(m.key) && renderable(m));
    let mut r: Vec<Media> = Vec::new();
    let n = media_pool.len();
    let mut i: usize = 0;
    proof {
        assert(poolv.take(0) =~= Seq::<MediaView>::empty());
        reveal_with_fuel(Seq::filter, 1);
        assert(r.deep_view() =~= poolv.take(0).filter(pred));
    }
    while i < n
        invariant
            i <= n,
            n == media_pool@.len(),
            keysv == attachment_keys.deep_view(),
            poolv == media_pool.deep_view(),
            pred == (|m: MediaView| keysv.contains(m.key) && renderable(m)),
            r.deep_view() == poolv.take(i as int).filter(pred),
        decreases n - i,
    {
        let keyed = contains_key(attachment_keys, &media_pool[i].key);
        let is_photo = media_pool[i].kind == MediaKind::Photo;
        let complete = media_pool[i].url.is_some() && media_pool[i].width.is_some()
            && media_pool[i].height.is_some();
        let ghost prev = r.deep_view();
        if keyed && is_photo && complete {
            let url = match &media_pool[i].url {
                Some(u) => Some(u.clone()),
                None => None,
            };
            let item = Media {
                key: media_pool[i].key.clone(),
                kind: media_pool[i].kind,
                url,
                width: media_pool[i].width,
                height: media_pool[i].height,
            };
            proof {
                assert(item.deep_view() == poolv[i as int]);
                assert(pred(poolv[i as int]));
            }
            r.push(item);
            proof {
                assert(r.deep_view() =~= prev.push(poolv[i as int]));
            }
        } else {
            proof {
                assert(!pred(poolv[i as int]));
            }
        }
        proof {
            assert(poolv.take(i as int + 1) =~= poolv.take(i as int).push(poolv[i as int]));
            lemma_filter_push(poolv.take(i as int), poolv[i as int], pred);
        }
        i = i + 1;
    }
    proof {
        assert(poolv.take(n as int) =~= poolv);
    }
    r
}

} // verus!
