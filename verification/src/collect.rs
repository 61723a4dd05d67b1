//! The entity collector: normalizes the heterogeneous annotation kinds of
//! a post — links, hashtags, mentions — into one list of entities, sorted
//! ascending by start offset with ties broken by a fixed kind priority
//! (link before mention before hashtag), so that collection is
//! deterministic.

use crate::model::Entity;
use crate::model::EntityKind;
use crate::model::EntityView;
use crate::model::MentionAnnotationView;
use crate::model::Post;
use crate::model::PostView;
use crate::model::TagAnnotationView;
use crate::model::UrlAnnotationView;
use vstd::prelude::*;
use vstd::string::StringExecFns;

verus! {

/// The fixed priority of an entity kind for tie-breaking: links first,
/// then mentions, then hashtags.
pub open spec fn kind_rank(k: EntityKind) -> int {
    match k {
        EntityKind::Link => 0,
        EntityKind::Mention => 1,
        EntityKind::Hashtag => 2,
    }
}

/// The collection order: ascending start offset, ties by kind priority.
pub open spec fn entity_le(x: EntityView, y: EntityView) -> bool {
    x.start < y.start || (x.start == y.start && kind_rank(x.kind) <= kind_rank(y.kind))
}

/// A sequence is sorted for the collection order.
pub open spec fn entity_sorted(s: Seq<EntityView>) -> bool {
    forall|i: int, j: int| 0 <= i < j < s.len() ==> entity_le(#[trigger] s[i], #[trigger] s[j])
}

/// `e` inserted behind every element that is less than or equal to it, so
/// that equal elements keep their arrival order.
pub open spec fn insert_sorted(e: EntityView, s: Seq<EntityView>) -> Seq<EntityView>
    decreases s.len(),
{
    if s.len() > 0 && entity_le(s[0], e) {
        seq![s[0]] + insert_sorted(e, s.drop_first())
    } else {
        seq![e] + s
    }
}

/// Insertion sort of a sequence, element by element from the left.
pub open spec fn sort_entities(s: Seq<EntityView>) -> Seq<EntityView>
    decreases s.len(),
{
    if s.len() == 0 {
        s
    } else {
        insert_sorted(s.last(), sort_entities(s.drop_last()))
    }
}

/// The entity a link annotation normalizes to: its own target and display
/// form.
pub open spec fn entity_of_url(a: UrlAnnotationView) -> EntityView {
    EntityView {
        kind: EntityKind::Link,
        start: a.start,
        end: a.end,
        url: a.url,
        label: a.display_url,
    }
}

/// The entity a hashtag annotation normalizes to: a search link for the
/// tag, labelled `#tag`.
pub open spec fn entity_of_tag(t: TagAnnotationView) -> EntityView {
    EntityView {
        kind: EntityKind::Hashtag,
        start: t.start,
        end: t.end,
        url: "https://twitter.com/hashtag/"@ + t.tag,
        label: "#"@ + t.tag,
    }
}

/// The entity a mention annotation normalizes to: the profile link of the
/// mentioned user, labelled `@username`.
pub open spec fn entity_of_mention(m: MentionAnnotationView) -> EntityView {
    EntityView {
        kind: EntityKind::Mention,
        start: m.start,
        end: m.end,
        url: "https://twitter.com/"@ + m.username,
        label: "@"@ + m.username,
    }
}

/// All annotations of a post as entities, in arrival order: links, then
/// hashtags, then mentions.
pub open spec fn normalized_entities(p: PostView) -> Seq<EntityView> {
    p.urls.map_values(|a: UrlAnnotationView| entity_of_url(a)) + p.hashtags.map_values(
        |t: TagAnnotationView| entity_of_tag(t),
    ) + p.mentions.map_values(|m: MentionAnnotationView| entity_of_mention(m))
}

/// What [`collect`] returns: the normalized entities, sorted.
pub open spec fn collect_spec(p: PostView) -> Seq<EntityView> {
    sort_entities(normalized_entities(p))
}

/// The collection order is total.
proof fn lemma_entity_le_total(x: EntityView, y: EntityView)
    ensures
        entity_le(x, y) || entity_le(y, x),
{
}

/// Inserting into a sorted sequence keeps it sorted.
proof fn lemma_insert_sorted_sorted(e: EntityView, s: Seq<EntityView>)
    requires
        entity_sorted(s),
    ensures
        entity_sorted(insert_sorted(e, s)),
    decreases s.len(),
{
    if s.len() > 0 && entity_le(s[0], e) {
        assert(entity_sorted(s.drop_first()));
        lemma_insert_sorted_sorted(e, s.drop_first());
        let rest = insert_sorted(e, s.drop_first());
        let whole = seq![s[0]] + rest;
        assert forall|i: int, j: int| 0 <= i < j < whole.len() implies entity_le(
            #[trigger] whole[i],
            #[trigger] whole[j],
        ) by {
            if i == 0 {
                lemma_insert_sorted_first(e, s.drop_first());
                assert(whole[j] == rest[j - 1]);
                if rest[j - 1] == e {
                    assert(entity_le(s[0], e));
                } else {
                    assert(s.drop_first().contains(rest[j - 1]));
                    let w = choose|w: int|
                        0 <= w < s.drop_first().len() && s.drop_first()[w] == rest[j - 1];
                    assert(s[w + 1] == rest[j - 1]);
                    assert(entity_le(s[0], s[w + 1]));
                }
            } else {
                assert(whole[i] == rest[i - 1]);
                assert(whole[j] == rest[j - 1]);
            }
        }
    } else {
        let whole = seq![e] + s;
        assert forall|i: int, j: int| 0 <= i < j < whole.len() implies entity_le(
            #[trigger] whole[i],
            #[trigger] whole[j],
        ) by {
            if i == 0 {
                assert(whole[j] == s[j - 1]);
                if s.len() > 0 {
                    lemma_entity_le_total(s[0], e);
                    assert(entity_le(e, s[0]));
                    if j > 1 {
                        assert(entity_le(s[0], s[j - 1]));
                    }
                }
            } else {
                assert(whole[i] == s[i - 1]);
                assert(whole[j] == s[j - 1]);
            }
        }
    }
}

/// Every element of an insertion result is the inserted element or one of
/// the sequence's own.
proof fn lemma_insert_sorted_first(e: EntityView, s: Seq<EntityView>)
    ensures
        forall|i: int|
            0 <= i < insert_sorted(e, s).len() ==> (#[trigger] insert_sorted(e, s)[i]) == e
                || s.contains(insert_sorted(e, s)[i]),
    decreases s.len(),
{
    if s.len() > 0 && entity_le(s[0], e) {
        lemma_insert_sorted_first(e, s.drop_first());
        let rest = insert_sorted(e, s.drop_first());
        let whole = seq![s[0]] + rest;
        assert forall|i: int|
            0 <= i < whole.len() implies (#[trigger] whole[i]) == e || s.contains(whole[i]) by {
            if i == 0 {
                assert(s[0] == whole[0]);
                assert(s.contains(s[0]));
            } else {
                assert(whole[i] == rest[i - 1]);
                if rest[i - 1] != e {
                    assert(s.drop_first().contains(rest[i - 1]));
                    let w = choose|w: int|
                        0 <= w < s.drop_first().len() && s.drop_first()[w] == rest[i - 1];
                    assert(s[w + 1] == rest[i - 1]);
                }
            }
        }
    } else {
        let whole = seq![e] + s;
        assert forall|i: int|
            0 <= i < whole.len() implies (#[trigger] whole[i]) == e || s.contains(whole[i]) by {
            if i > 0 {
                assert(whole[i] == s[i - 1]);
            }
        }
    }
}

/// The sorted form of any sequence is sorted.
pub proof fn lemma_sort_entities_sorted(s: Seq<EntityView>)
    ensures
        entity_sorted(sort_entities(s)),
    decreases s.len(),
{
    if s.len() == 0 {
    } else {
        lemma_sort_entities_sorted(s.drop_last());
        lemma_insert_sorted_sorted(s.last(), sort_entities(s.drop_last()));
    }
}

/// Inserting at the first position whose element is not less than or
/// equal to `e` is the sorted insertion.
proof fn lemma_insert_sorted_at(s: Seq<EntityView>, e: EntityView, j: int)
    requires
        0 <= j <= s.len(),
        forall|t: int| 0 <= t < j ==> entity_le(#[trigger] s[t], e),
        j < s.len() ==> !entity_le(s[j], e),
    ensures
        insert_sorted(e, s) == s.insert(j, e),
    decreases s.len(),
{
    if j == 0 {
        assert(insert_sorted(e, s) == seq![e] + s);
        assert(seq![e] + s =~= s.insert(0, e));
    } else {
        assert(entity_le(s[0], e));
        lemma_insert_sorted_at(s.drop_first(), e, j - 1);
        assert(insert_sorted(e, s) == seq![s[0]] + s.drop_first().insert(j - 1, e));
        assert(seq![s[0]] + s.drop_first().insert(j - 1, e) =~= s.insert(j, e));
    }
}

/// The exec form of the collection order.
fn entity_le_exec(a: &Entity, b: &Entity) -> (r: bool)
    ensures
        r == entity_le(a.deep_view(), b.deep_view()),
{
    let ra: u8 = match a.kind {
        EntityKind::Link => 0,
        EntityKind::Mention => 1,
        EntityKind::Hashtag => 2,
    };
    let rb: u8 = match b.kind {
        EntityKind::Link => 0,
        EntityKind::Mention => 1,
        EntityKind::Hashtag => 2,
    };
    a.start < b.start || (a.start == b.start && ra <= rb)
}

/// Inserts `e` into an already sorted list, behind every element less
/// than or equal to it.
fn insert_entity(list: Vec<Entity>, e: Entity) -> (r: Vec<Entity>)
    ensures
        r.deep_view() == insert_sorted(e.deep_view(), list.deep_view()),
{
    let mut list = list;
    let n = list.len();
    let mut j: usize = 0;
    while j < n
        invariant_except_break
            j <= n,
            n == list@.len(),
            forall|t: int| 0 <= t < j ==> entity_le(#[trigger] list.deep_view()[t], e.deep_view()),
        ensures
            j <= n,
            n == list@.len(),
            forall|t: int| 0 <= t < j ==> entity_le(#[trigger] list.deep_view()[t], e.deep_view()),
            j < n ==> !entity_le(list.deep_view()[j as int], e.deep_view()),
        decreases n - j,
    {
        if !entity_le_exec(&list[j], &e) {
            break ;
        }
        j = j + 1;
    }
    proof {
        lemma_insert_sorted_at(list.deep_view(), e.deep_view(), j as int);
    }
    let ghost prev = list.deep_view();
    let ghost ev = e.deep_view();
    list.insert(j, e);
    proof {
        assert(list.deep_view() =~= prev.insert(j as int, ev));
    }
    list
}

/// Collects all annotations of a post into one normalized entity list,
/// sorted ascending by start with ties broken by kind priority.
pub fn collect(post: &Post) -> (r: Vec<Entity>)
    ensures
        r.deep_view() == collect_spec(post.deep_view()),
        entity_sorted(r.deep_view()),
{
    let ghost norm = normalized_entities(post.deep_view());
    let ghost urls_m = post.deep_view().urls.map_values(
        |a: UrlAnnotationView| entity_of_url(a),
    );
    let ghost tags_m = post.deep_view().hashtags.map_values(
        |t: TagAnnotationView| entity_of_tag(t),
    );
    let ghost mentions_m = post.deep_view().mentions.map_values(
        |m: MentionAnnotationView| entity_of_mention(m),
    );
    let mut r: Vec<Entity> = Vec::new();
    proof {
        assert(norm.take(0) =~= Seq::<EntityView>::empty());
        assert(r.deep_view() =~= Seq::<EntityView>::empty());
    }
    let nu = post.urls.len();
    let mut i: usize = 0;
    while i < nu
        invariant
            i <= nu,
            nu == post.urls@.len(),
            norm == normalized_entities(post.deep_view()),
            urls_m == post.deep_view().urls.map_values(|a: UrlAnnotationView| entity_of_url(a)),
            norm == urls_m + post.deep_view().hashtags.map_values(
                |t: TagAnnotationView| entity_of_tag(t),
            ) + post.deep_view().mentions.map_values(
                |m: MentionAnnotationView| entity_of_mention(m),
            ),
            r.deep_view() == sort_entities(norm.take(i as int)),
        decreases nu - i,
    {
        let e = Entity {
            kind: EntityKind::Link,
            start: post.urls[i].start,
            end: post.urls[i].end,
            url: post.urls[i].url.clone(),
            label: post.urls[i].display_url.clone(),
        };
        proof {
            assert(e.deep_view() == urls_m[i as int]);
            assert(norm[i as int] == urls_m[i as int]);
        }
        r = insert_entity(r, e);
        proof {
            assert(norm.take(i as int + 1) =~= norm.take(i as int).push(norm[i as int]));
            lemma_sort_take_step(norm, i as int);
        }
        i = i + 1;
    }
    let nt = post.hashtags.len();
    let mut k: usize = 0;
    while k < nt
        invariant
            k <= nt,
            nt == post.hashtags@.len(),
            nu == post.urls@.len(),
            norm == normalized_entities(post.deep_view()),
            urls_m == post.deep_view().urls.map_values(|a: UrlAnnotationView| entity_of_url(a)),
            tags_m == post.deep_view().hashtags.map_values(
                |t: TagAnnotationView| entity_of_tag(t),
            ),
            norm == urls_m + tags_m + post.deep_view().mentions.map_values(
                |m: MentionAnnotationView| entity_of_mention(m),
            ),
            r.deep_view() == sort_entities(norm.take(nu + k as int)),
        decreases nt - k,
    {
        let url = String::from_str("https://twitter.com/hashtag/").concat(
            post.hashtags[k].tag.as_str(),
        );
        let label = String::from_str("#").concat(post.hashtags[k].tag.as_str());
        let e = Entity {
            kind: EntityKind::Hashtag,
            start: post.hashtags[k].start,
            end: post.hashtags[k].end,
            url,
            label,
        };
        proof {
            assert(e.deep_view() == tags_m[k as int]);
            assert(norm[nu + k as int] == tags_m[k as int]);
        }
        r = insert_entity(r, e);
        proof {
            assert(norm.take(nu + k as int + 1) =~= norm.take(nu + k as int).push(
                norm[nu + k as int],
            ));
            lemma_sort_take_step(norm, nu + k as int);
        }
        k = k + 1;
    }
    let nm = post.mentions.len();
    let mut m: usize = 0;
    while m < nm
        invariant
            m <= nm,
            nm == post.mentions@.len(),
            nu == post.urls@.len(),
            nt == post.hashtags@.len(),
            norm == normalized_entities(post.deep_view()),
            urls_m == post.deep_view().urls.map_values(|a: UrlAnnotationView| entity_of_url(a)),
            tags_m == post.deep_view().hashtags.map_values(
                |t: TagAnnotationView| entity_of_tag(t),
            ),
            mentions_m == post.deep_view().mentions.map_values(
                |mv: MentionAnnotationView| entity_of_mention(mv),
            ),
            norm == urls_m + tags_m + mentions_m,
            r.deep_view() == sort_entities(norm.take(nu + nt + m as int)),
        decreases nm - m,
    {
        let url = String::from_str("https://twitter.com/").concat(
            post.mentions[m].username.as_str(),
        );
        let label = String::from_str("@").concat(post.mentions[m].username.as_str());
        let e = Entity {
            kind: EntityKind::Mention,
            start: post.mentions[m].start,
            end: post.mentions[m].end,
            url,
            label,
        };
        proof {
            assert(e.deep_view() == mentions_m[m as int]);
            assert(norm[nu + nt + m as int] == mentions_m[m as int]);
        }
        r = insert_entity(r, e);
        proof {
            assert(norm.take(nu + nt + m as int + 1) =~= norm.take(nu + nt + m as int).push(
                norm[nu + nt + m as int],
            ));
            lemma_sort_take_step(norm, nu + nt + m as int);
        }
        m = m + 1;
    }
    proof {
        assert(norm.take(nu + nt + nm as int) =~= norm);
        lemma_sort_entities_sorted(norm);
    }
    r
}

/// One step of sorting a growing prefix: the next element is inserted
/// into the sorted prefix.
proof fn lemma_sort_take_step(s: Seq<EntityView>, i: int)
    requires
        0 <= i < s.len(),
    ensures
        sort_entities(s.take(i + 1)) == insert_sorted(s[i], sort_entities(s.take(i))),
{
    let t = s.take(i + 1);
    assert(t.len() == i + 1);
    assert(t.last() == s[i]);
    assert(t.drop_last() =~= s.take(i));
}

} // verus!
