//! The renderer: composes the collector, segmenter, merger and media
//! resolver into whole rendered posts and timelines, and embeds at most
//! one level of quoted post.
//!
//! Rendering is total over well-formed posts: a malformed entity — one
//! whose span falls outside the text's codepoint range — is dropped and
//! the rest of the post still renders; it never fails a render call.

use crate::collect::collect;
use crate::collect::collect_spec;
use crate::media::lemma_filter_push;
use crate::media::media_filter_spec;
use crate::media::resolve_media;
use crate::merge::lemma_merge_runs_no_entities;
use crate::merge::merge;
use crate::merge::merge_runs;
use crate::model::valid_entity;
use crate::model::Entity;
use crate::model::EntityView;
use crate::model::Line;
use crate::model::Media;
use crate::model::MediaView;
use crate::model::Paragraph;
use crate::model::Post;
use crate::model::PostView;
use crate::model::RefKind;
use crate::model::ReferenceView;
use crate::model::RenderedDocument;
use crate::model::RenderedPost;
use crate::model::Run;
use crate::model::RunModel;
use crate::segment::line_ranges;
use crate::segment::lemma_split_lines_in_range;
use crate::segment::lemma_split_paras_in_range;
use crate::segment::ranges_view;
use crate::segment::segment;
use crate::segment::split_lines;
use crate::segment::split_paragraphs;
use vstd::prelude::*;
use vstd::string::StrSliceExecFns;

verus! {

/// The well-formed entities of a post, in collection order: the collected
/// list with every entity whose span falls outside the text dropped.
pub open spec fn valid_entities_of(p: PostView) -> Seq<EntityView> {
    collect_spec(p).filter(|e: EntityView| valid_entity(e, p.text.len() as int))
}

/// The full rendering of a text under a list of well-formed entities:
/// paragraph by paragraph, line by line, the merged runs of that line.
pub open spec fn render_text_spec(text: Seq<char>, ents: Seq<EntityView>) -> Seq<
    Seq<Seq<RunModel>>,
> {
    split_paragraphs(text).map_values(
        |pr: (int, int)|
            split_lines(text, pr.0, pr.1).map_values(
                |lr: (int, int)| merge_runs(text, ents, lr.0, lr.1),
            ),
    )
}

/// The first post of the batch carrying the given id.
pub open spec fn find_post_spec(posts: Seq<PostView>, id: int) -> Option<PostView>
    decreases posts.len(),
{
    if posts.len() == 0 {
        None
    } else if posts[0].id == id {
        Some(posts[0])
    } else {
        find_post_spec(posts.drop_first(), id)
    }
}

/// The post quoted by the first `Quoted` reference whose target is in the
/// fetched batch; references of other kinds are ignored.
pub open spec fn quoted_target_spec(refs: Seq<ReferenceView>, posts: Seq<PostView>) -> Option<
    PostView,
>
    decreases refs.len(),
{
    if refs.len() == 0 {
        None
    } else if refs[0].kind == RefKind::Quoted && find_post_spec(posts, refs[0].target_id) is Some {
        find_post_spec(posts, refs[0].target_id)
    } else {
        quoted_target_spec(refs.drop_first(), posts)
    }
}

/// An embedded quoted post is rendered from its source post and the
/// shared media pool, with no further quote of its own: the depth cap.
pub open spec fn quoted_rendered(q: RenderedPost, src: PostView, pool: Seq<MediaView>) -> bool {
    &&& q.paragraphs.deep_view() == render_text_spec(src.text, valid_entities_of(src))
    &&& q.media.deep_view() == media_filter_spec(pool, src.attachment_keys)
    &&& q.quoted is None
}

/// A rendered post carries exactly the rendering of its text under its
/// well-formed entities, the renderable media its keys refer to, and —
/// when one of its references quotes a post of the fetched batch — that
/// post rendered one level deep.
pub open spec fn post_rendered(
    r: RenderedPost,
    p: PostView,
    pool: Seq<MediaView>,
    refs: Seq<PostView>,
) -> bool {
    &&& r.paragraphs.deep_view() == render_text_spec(p.text, valid_entities_of(p))
    &&& r.media.deep_view() == media_filter_spec(pool, p.attachment_keys)
    &&& match quoted_target_spec(p.references, refs) {
        None => r.quoted is None,
        Some(src) => r.quoted matches Some(b) && quoted_rendered(*b, src, pool),
    }
}

/// Drops every entity whose span falls outside a text of `n` codepoints,
/// keeping the order of the rest.
fn validate_entities(entities: &Vec<Entity>, n: usize) -> (r: Vec<Entity>)
    ensures
        r.deep_view() == entities.deep_view().filter(
            |e: EntityView| valid_entity(e, n as int),
        ),
{
    let ghost evs = entities.deep_view();
    let ghost pred = (|e: EntityView| valid_entity(e, n as int));
    let mut r: Vec<Entity> = Vec::new();
    let count = entities.len();
    let mut i: usize = 0;
    proof {
        assert(evs.take(0) =~= Seq::<EntityView>::empty());
        reveal_with_fuel(Seq::filter, 1);
        assert(r.deep_view() =~= evs.take(0).filter(pred));
    }
    while i < count
        invariant
            i <= count,
            count == entities@.len(),
            evs == entities.deep_view(),
            pred == (|e: EntityView| valid_entity(e, n as int)),
            r.deep_view() == evs.take(i as int).filter(pred),
        decreases count - i,
    {
        let ghost prev = r.deep_view();
        if entities[i].start < entities[i].end && entities[i].end <= n {
            let item = Entity {
                kind: entities[i].kind,
                start: entities[i].start,
                end: entities[i].end,
                url: entities[i].url.clone(),
                label: entities[i].label.clone(),
            };
            proof {
                assert(item.deep_view() == evs[i as int]);
                assert(pred(evs[i as int]));
            }
            r.push(item);
            proof {
                assert(r.deep_view() =~= prev.push(evs[i as int]));
            }
        } else {
            proof {
                assert(!pred(evs[i as int]));
            }
        }
        proof {
            assert(evs.take(i as int + 1) =~= evs.take(i as int).push(evs[i as int]));
            lemma_filter_push(evs.take(i as int), evs[i as int], pred);
        }
        i = i + 1;
    }
    proof {
        assert(evs.take(count as int) =~= evs);
    }
    r
}

/// Renders a text into paragraphs of lines of runs under an already
/// validated entity list.
pub fn render_paragraphs(text: &str, entities: &Vec<Entity>) -> (r: Vec<Paragraph>)
    requires
        forall|i: int|
            0 <= i < entities.deep_view().len() ==> valid_entity(
                #[trigger] entities.deep_view()[i],
                text@.len() as int,
            ),
    ensures
        r.deep_view() == render_text_spec(text@, entities.deep_view()),
{
    let ghost evs = entities.deep_view();
    let ghost target = render_text_spec(text@, evs);
    let paras = segment(text);
    proof {
        lemma_split_paras_in_range(text@, 0, text@.len() as int);
        assert(ranges_view(paras@).len() == split_paragraphs(text@).len());
    }
    let mut r: Vec<Paragraph> = Vec::new();
    let np = paras.len();
    let mut p: usize = 0;
    proof {
        assert(r.deep_view() =~= target.take(0));
    }
    while p < np
        invariant
            p <= np,
            np == paras@.len(),
            evs == entities.deep_view(),
            target == render_text_spec(text@, evs),
            forall|i: int|
                0 <= i < evs.len() ==> valid_entity(#[trigger] evs[i], text@.len() as int),
            ranges_view(paras@) == split_paragraphs(text@),
            r.deep_view() == target.take(p as int),
        decreases np - p,
    {
        let ps = paras[p].0;
        let pe = paras[p].1;
        proof {
            lemma_split_paras_in_range(text@, 0, text@.len() as int);
            assert(ranges_view(paras@)[p as int] == split_paragraphs(text@)[p as int]);
            assert(split_paragraphs(text@)[p as int] == (ps as int, pe as int));
            assert(0 <= ps as int && ps as int <= pe as int && pe as int <= text@.len());
        }
        let ghost inner = split_lines(text@, ps as int, pe as int).map_values(
            |lr: (int, int)| merge_runs(text@, evs, lr.0, lr.1),
        );
        let lines = line_ranges(text, ps, pe);
        let mut para_lines: Vec<Line> = Vec::new();
        let nl = lines.len();
        let mut l: usize = 0;
        proof {
            assert(ranges_view(lines@).len() == split_lines(text@, ps as int, pe as int).len());
            assert(para_lines.deep_view() =~= inner.take(0));
        }
        while l < nl
            invariant
                l <= nl,
                nl == lines@.len(),
                evs == entities.deep_view(),
                forall|i: int|
                    0 <= i < evs.len() ==> valid_entity(#[trigger] evs[i], text@.len() as int),
                ps <= pe,
                pe as int <= text@.len(),
                ranges_view(lines@) == split_lines(text@, ps as int, pe as int),
                inner == split_lines(text@, ps as int, pe as int).map_values(
                    |lr: (int, int)| merge_runs(text@, evs, lr.0, lr.1),
                ),
                para_lines.deep_view() == inner.take(l as int),
            decreases nl - l,
        {
            let ls = lines[l].0;
            let le = lines[l].1;
            proof {
                lemma_split_lines_in_range(text@, ps as int, pe as int);
                assert(ranges_view(lines@)[l as int] == split_lines(
                    text@,
                    ps as int,
                    pe as int,
                )[l as int]);
                assert(split_lines(text@, ps as int, pe as int)[l as int] == (
                    ls as int,
                    le as int,
                ));
                assert(ps as int <= ls as int && ls as int <= le as int && le as int
                    <= text@.len());
            }
            let runs = merge(text, entities, ls, le);
            let ghost prev = para_lines.deep_view();
            para_lines.push(Line { runs });
            proof {
                assert(para_lines.deep_view() =~= prev.push(
                    merge_runs(text@, evs, ls as int, le as int),
                ));
                assert(inner[l as int] == merge_runs(text@, evs, ls as int, le as int));
                assert(inner.take(l as int + 1) =~= inner.take(l as int).push(inner[l as int]));
            }
            l = l + 1;
        }
        let ghost prev_r = r.deep_view();
        r.push(Paragraph { lines: para_lines });
        proof {
            assert(inner.take(nl as int) =~= inner);
            assert(target[p as int] == inner);
            assert(r.deep_view() =~= prev_r.push(inner));
            assert(target.take(p as int + 1) =~= target.take(p as int).push(target[p as int]));
        }
        p = p + 1;
    }
    proof {
        assert(target.take(np as int) =~= target);
    }
    r
}

/// Renders a post's text and media: its paragraphs under the collected,
/// validated entities, and the renderable media its keys refer to.
fn render_body(post: &Post, media_pool: &Vec<Media>) -> (r: (Vec<Paragraph>, Vec<Media>))
    ensures
        r.0.deep_view() == render_text_spec(post.text@, valid_entities_of(post.deep_view())),
        r.1.deep_view() == media_filter_spec(
            media_pool.deep_view(),
            post.deep_view().attachment_keys,
        ),
{
    let collected = collect(post);
    let n = post.text.as_str().unicode_len();
    let valid = validate_entities(&collected, n);
    proof {
        assert(post.deep_view().text == post.text@);
        assert(valid.deep_view() == valid_entities_of(post.deep_view()));
        assert forall|i: int| 0 <= i < valid.deep_view().len() implies valid_entity(
            #[trigger] valid.deep_view()[i],
            post.text@.len() as int,
        ) by {
            collected.deep_view().lemma_filter_pred(
                |e: EntityView| valid_entity(e, n as int),
                i,
            );
        }
    }
    let paragraphs = render_paragraphs(post.text.as_str(), &valid);
    let media = resolve_media(&post.attachment_keys, media_pool);
    (paragraphs, media)
}

/// The index of the first post of the batch carrying the given id.
fn find_post(posts: &Vec<Post>, id: u64) -> (r: Option<usize>)
    ensures
        match r {
            Some(i) => i < posts@.len() && find_post_spec(posts.deep_view(), id as int) == Some(
                posts.deep_view()[i as int],
            ),
            None => find_post_spec(posts.deep_view(), id as int) is None,
        },
{
    let ghost pvs = posts.deep_view();
    let n = posts.len();
    let mut i: usize = 0;
    proof {
        assert(pvs.skip(0) =~= pvs);
    }
    while i < n
        invariant
            i <= n,
            n == posts@.len(),
            pvs == posts.deep_view(),
            find_post_spec(pvs, id as int) == find_post_spec(pvs.skip(i as int), id as int),
        decreases n - i,
    {
        proof {
            assert(pvs.skip(i as int).len() > 0);
            assert(pvs.skip(i as int)[0] == pvs[i as int]);
            assert(pvs.skip(i as int).drop_first() =~= pvs.skip(i as int + 1));
        }
        if posts[i].id == id {
            proof {
                assert(find_post_spec(pvs.skip(i as int), id as int) == Some(pvs[i as int]));
            }
            return Some(i);
        }
        i = i + 1;
    }
    proof {
        assert(pvs.skip(n as int) =~= Seq::<PostView>::empty());
    }
    None
}

/// Embeds the quoted post, if any: the first `Quoted` reference whose
/// target is in the fetched batch is rendered against the same shared
/// media pool, one level deep — the quoted post's own references are not
/// processed, so a reference cycle cannot recurse.
pub fn embed_quote(post: &Post, media_pool: &Vec<Media>, referenced_posts: &Vec<Post>) -> (r:
    Option<RenderedPost>)
    ensures
        match quoted_target_spec(post.deep_view().references, referenced_posts.deep_view()) {
            None => r is None,
            Some(src) => r matches Some(q) && quoted_rendered(q, src, media_pool.deep_view()),
        },
{
    let ghost refs = post.deep_view().references;
    let ghost batch = referenced_posts.deep_view();
    let n = post.references.len();
    let mut i: usize = 0;
    proof {
        assert(refs.skip(0) =~= refs);
    }
    while i < n
        invariant
            i <= n,
            n == post.references@.len(),
            refs == post.deep_view().references,
            batch == referenced_posts.deep_view(),
            quoted_target_spec(refs, batch) == quoted_target_spec(refs.skip(i as int), batch),
        decreases n - i,
    {
        proof {
            assert(refs.skip(i as int).len() > 0);
            assert(refs.skip(i as int)[0] == refs[i as int]);
            assert(refs.skip(i as int).drop_first() =~= refs.skip(i as int + 1));
        }
        if post.references[i].kind == RefKind::Quoted {
            match find_post(referenced_posts, post.references[i].target_id) {
                Some(idx) => {
                    proof {
                        assert(quoted_target_spec(refs.skip(i as int), batch) == Some(
                            batch[idx as int],
                        ));
                    }
                    let (paragraphs, media) = render_body(&referenced_posts[idx], media_pool);
                    proof {
                        assert(referenced_posts[idx as int].deep_view() == batch[idx as int]);
                    }
                    return Some(RenderedPost { paragraphs, media, quoted: None });
                },
                None => {
                    proof {
                        assert(quoted_target_spec(refs.skip(i as int), batch)
                            == quoted_target_spec(refs.skip(i as int + 1), batch));
                    }
                },
            }
        } else {
            proof {
                assert(quoted_target_spec(refs.skip(i as int), batch) == quoted_target_spec(
                    refs.skip(i as int + 1),
                    batch,
                ));
            }
        }
        i = i + 1;
    }
    proof {
        assert(refs.skip(n as int) =~= Seq::<ReferenceView>::empty());
    }
    None
}

/// Renders one post: its paragraphs, its renderable media, and at most
/// one embedded quoted post.
pub fn render_post(post: &Post, media_pool: &Vec<Media>, referenced_posts: &Vec<Post>) -> (r:
    RenderedPost)
    ensures
        post_rendered(
            r,
            post.deep_view(),
            media_pool.deep_view(),
            referenced_posts.deep_view(),
        ),
{
    let (paragraphs, media) = render_body(post, media_pool);
    let quoted = match embed_quote(post, media_pool, referenced_posts) {
        Some(q) => Some(Box::new(q)),
        None => None,
    };
    RenderedPost { paragraphs, media, quoted }
}

/// Wraps rendered posts into a document. A visual separator belongs
/// between consecutive posts, never after the last; that is left to the
/// presentation layer, so the document is exactly the sequence.
pub fn assemble(posts: Vec<RenderedPost>) -> (r: RenderedDocument)
    ensures
        r.posts == posts,
{
    RenderedDocument { posts }
}

/// Renders a timeline: every post of the batch, in order, each against
/// the same shared media pool and referenced-post batch.
pub fn render_timeline(
    posts: &Vec<Post>,
    media_pool: &Vec<Media>,
    referenced_posts: &Vec<Post>,
) -> (r: RenderedDocument)
    ensures
        r.posts@.len() == posts@.len(),
        forall|i: int|
            0 <= i < posts@.len() ==> post_rendered(
                #[trigger] r.posts@[i],
                posts.deep_view()[i],
                media_pool.deep_view(),
                referenced_posts.deep_view(),
            ),
{
    let mut rendered: Vec<RenderedPost> = Vec::new();
    let n = posts.len();
    let mut i: usize = 0;
    while i < n
        invariant
            i <= n,
            n == posts@.len(),
            rendered@.len() == i,
            forall|j: int|
                0 <= j < i ==> post_rendered(
                    #[trigger] rendered@[j],
                    posts.deep_view()[j],
                    media_pool.deep_view(),
                    referenced_posts.deep_view(),
                ),
        decreases n - i,
    {
        let one = render_post(&posts[i], media_pool, referenced_posts);
        proof {
            assert(posts[i as int].deep_view() == posts.deep_view()[i as int]);
        }
        rendered.push(one);
        i = i + 1;
    }
    assemble(rendered)
}

/// The runs of a paragraph assembled from its lines: a line break between
/// consecutive lines, never after the last.
pub open spec fn join_lines(lines: Seq<Seq<RunModel>>) -> Seq<RunModel>
    decreases lines.len(),
{
    if lines.len() == 0 {
        Seq::empty()
    } else if lines.len() == 1 {
        lines[0]
    } else {
        lines[0] + seq![RunModel::LineBreak] + join_lines(lines.drop_first())
    }
}

/// Joining one more line appends a break and the line, except before the
/// first line.
proof fn lemma_join_lines_snoc(lines: Seq<Seq<RunModel>>, x: Seq<RunModel>)
    ensures
        join_lines(lines.push(x)) == if lines.len() == 0 {
            x
        } else {
            join_lines(lines) + seq![RunModel::LineBreak] + x
        },
    decreases lines.len(),
{
    let whole = lines.push(x);
    if lines.len() == 0 {
        assert(whole.len() == 1);
        assert(whole[0] == x);
        assert(join_lines(whole) == x);
    } else if lines.len() == 1 {
        assert(whole.len() == 2);
        assert(whole[0] == lines[0]);
        assert(whole.drop_first() =~= seq![x]);
        assert(join_lines(seq![x]) == x);
        assert(join_lines(whole) == lines[0] + seq![RunModel::LineBreak] + x);
        assert(join_lines(lines) == lines[0]);
    } else {
        assert(whole[0] == lines[0]);
        assert(whole.drop_first() =~= lines.drop_first().push(x));
        lemma_join_lines_snoc(lines.drop_first(), x);
        assert(join_lines(whole) == lines[0] + seq![RunModel::LineBreak] + (join_lines(
            lines.drop_first(),
        ) + seq![RunModel::LineBreak] + x));
        assert(lines[0] + seq![RunModel::LineBreak] + (join_lines(lines.drop_first()) + seq![
            RunModel::LineBreak,
        ] + x) =~= (lines[0] + seq![RunModel::LineBreak] + join_lines(lines.drop_first())) + seq![
            RunModel::LineBreak,
        ] + x);
    }
}

/// A copy of one run.
fn clone_run(r: &Run) -> (c: Run)
    ensures
        c.deep_view() == r.deep_view(),
{
    match r {
        Run::Text(t) => Run::Text(t.clone()),
        Run::Link { url, label } => Run::Link { url: url.clone(), label: label.clone() },
        Run::LineBreak => Run::LineBreak,
    }
}

/// Assembles one paragraph's runs from its lines, joining consecutive
/// lines with a line break and putting none after the last.
pub fn paragraph_runs(p: &Paragraph) -> (r: Vec<Run>)
    ensures
        r.deep_view() == join_lines(p.deep_view()),
{
    let ghost lv = p.deep_view();
    let mut out: Vec<Run> = Vec::new();
    let nl = p.lines.len();
    let mut l: usize = 0;
    proof {
        assert(lv.take(0) =~= Seq::<Seq<RunModel>>::empty());
        assert(out.deep_view() =~= join_lines(lv.take(0)));
    }
    while l < nl
        invariant
            l <= nl,
            nl == p.lines@.len(),
            lv == p.deep_view(),
            out.deep_view() == join_lines(lv.take(l as int)),
        decreases nl - l,
    {
        if l > 0 {
            let ghost prev = out.deep_view();
            out.push(Run::LineBreak);
            proof {
                assert(out.deep_view() =~= prev.push(RunModel::LineBreak));
            }
        }
        let nr = p.lines[l].runs.len();
        let mut j: usize = 0;
        while j < nr
            invariant
                j <= nr,
                l < nl,
                nl == p.lines@.len(),
                nr == p.lines@[l as int].runs@.len(),
                lv == p.deep_view(),
                out.deep_view() == join_lines(lv.take(l as int)) + (if l > 0 {
                    seq![RunModel::LineBreak]
                } else {
                    Seq::<RunModel>::empty()
                }) + lv[l as int].take(j as int),
            decreases nr - j,
        {
            let c = clone_run(&p.lines[l].runs[j]);
            let ghost prev = out.deep_view();
            out.push(c);
            proof {
                assert(lv[l as int] == p.lines@[l as int].deep_view());
                assert(lv[l as int][j as int] == p.lines@[l as int].runs@[j as int].deep_view());
                assert(out.deep_view() =~= prev.push(lv[l as int][j as int]));
                assert(lv[l as int].take(j as int + 1) =~= lv[l as int].take(j as int).push(
                    lv[l as int][j as int],
                ));
                assert(out.deep_view() =~= join_lines(lv.take(l as int)) + (if l > 0 {
                    seq![RunModel::LineBreak]
                } else {
                    Seq::<RunModel>::empty()
                }) + lv[l as int].take(j as int + 1));
            }
            j = j + 1;
        }
        proof {
            assert(lv[l as int].take(nr as int) =~= lv[l as int]);
            assert(lv.take(l as int + 1) =~= lv.take(l as int).push(lv[l as int]));
            lemma_join_lines_snoc(lv.take(l as int), lv[l as int]);
            if l > 0 {
                assert(lv.take(l as int).len() > 0);
                assert(out.deep_view() =~= join_lines(lv.take(l as int + 1)));
            } else {
                assert(join_lines(lv.take(0)) + Seq::<RunModel>::empty() + lv[0] =~= lv[0]);
                assert(out.deep_view() =~= join_lines(lv.take(1)));
            }
        }
        l = l + 1;
    }
    proof {
        assert(lv.take(nl as int) =~= lv);
    }
    out
}

/// No-entity round trip: a post without annotations renders to exactly
/// the segmenter's paragraph and line split — every line one plain text
/// run holding the line's text (none when the line is empty), and no link
/// run anywhere.
pub proof fn lemma_no_entity_round_trip(p: PostView)
    requires
        p.urls.len() == 0,
        p.hashtags.len() == 0,
        p.mentions.len() == 0,
    ensures
        valid_entities_of(p) == Seq::<EntityView>::empty(),
        render_text_spec(p.text, valid_entities_of(p)).len() == split_paragraphs(p.text).len(),
        forall|i: int|
            0 <= i < split_paragraphs(p.text).len() ==> (#[trigger] render_text_spec(
                p.text,
                valid_entities_of(p),
            )[i]).len() == split_lines(
                p.text,
                split_paragraphs(p.text)[i].0,
                split_paragraphs(p.text)[i].1,
            ).len(),
        forall|i: int, l: int|
            0 <= i < split_paragraphs(p.text).len() && 0 <= l < split_lines(
                p.text,
                split_paragraphs(p.text)[i].0,
                split_paragraphs(p.text)[i].1,
            ).len() ==> (#[trigger] render_text_spec(p.text, valid_entities_of(p))[i][l]) == (
            if split_lines(
                p.text,
                split_paragraphs(p.text)[i].0,
                split_paragraphs(p.text)[i].1,
            )[l].0 < split_lines(
                p.text,
                split_paragraphs(p.text)[i].0,
                split_paragraphs(p.text)[i].1,
            )[l].1 {
                seq![
                    RunModel::Text(
                        p.text.subrange(
                            split_lines(
                                p.text,
                                split_paragraphs(p.text)[i].0,
                                split_paragraphs(p.text)[i].1,
                            )[l].0,
                            split_lines(
                                p.text,
                                split_paragraphs(p.text)[i].0,
                                split_paragraphs(p.text)[i].1,
                            )[l].1,
                        ),
                    ),
                ]
            } else {
                Seq::<RunModel>::empty()
            }),
{
    assert(p.urls.map_values(|a: crate::model::UrlAnnotationView| crate::collect::entity_of_url(a))
        =~= Seq::<EntityView>::empty());
    assert(p.hashtags.map_values(
        |t: crate::model::TagAnnotationView| crate::collect::entity_of_tag(t),
    ) =~= Seq::<EntityView>::empty());
    assert(p.mentions.map_values(
        |m: crate::model::MentionAnnotationView| crate::collect::entity_of_mention(m),
    ) =~= Seq::<EntityView>::empty());
    assert(crate::collect::normalized_entities(p) =~= Seq::<EntityView>::empty());
    assert(collect_spec(p) == Seq::<EntityView>::empty());
    reveal_with_fuel(Seq::filter, 1);
    assert(valid_entities_of(p) =~= Seq::<EntityView>::empty());
    let ents = valid_entities_of(p);
    let paras = split_paragraphs(p.text);
    lemma_split_paras_in_range(p.text, 0, p.text.len() as int);
    assert forall|i: int, l: int|
        0 <= i < paras.len() && 0 <= l < split_lines(p.text, paras[i].0, paras[i].1).len() implies (
    #[trigger] render_text_spec(p.text, ents)[i][l]) == (if split_lines(
        p.text,
        paras[i].0,
        paras[i].1,
    )[l].0 < split_lines(p.text, paras[i].0, paras[i].1)[l].1 {
        seq![
            RunModel::Text(
                p.text.subrange(
                    split_lines(p.text, paras[i].0, paras[i].1)[l].0,
                    split_lines(p.text, paras[i].0, paras[i].1)[l].1,
                ),
            ),
        ]
    } else {
        Seq::<RunModel>::empty()
    }) by {
        lemma_split_lines_in_range(p.text, paras[i].0, paras[i].1);
        let lr = split_lines(p.text, paras[i].0, paras[i].1)[l];
        lemma_merge_runs_no_entities(p.text, lr.0, lr.1);
    }
}

} // verus!
