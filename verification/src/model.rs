//! The data model: posts and their annotations on the input side, and the
//! rendered document tree (paragraphs, lines, runs) on the output side.
//!
//! Every executable type has a mathematical view reached through
//! `deep_view()`: offsets become `int`, strings become `Seq<char>` and
//! vectors become `Seq` of the element views. All contracts in this crate
//! are stated over those views.

use vstd::prelude::*;

verus! {

/// The kind of an annotation attached to a span of post text.
#[derive(Clone, Copy, Debug, PartialEq, Eq, Structural)]
pub enum EntityKind {
    Link,
    Hashtag,
    Mention,
}

/// The kind of a reference from one post to another.
#[derive(Clone, Copy, Debug, PartialEq, Eq, Structural)]
pub enum RefKind {
    Quoted,
    Replied,
    Retweeted,
}

/// The kind of a media object in the shared media pool.
#[derive(Clone, Copy, Debug, PartialEq, Eq, Structural)]
pub enum MediaKind {
    Photo,
    Video,
    Other,
}

/// An error from the upstream fetch collaborator. The rendering core never
/// produces one of these itself; it only passes them through.
#[derive(Clone, Copy, Debug, PartialEq, Eq, Structural)]
pub enum FetchError {
    NotFound,
    AuthError,
    TransportError,
}

/// A link annotation as delivered by the upstream API: a codepoint span
/// `[start, end)` of the post text, the link target and a short display
/// form of the target.
#[derive(Clone, Debug, PartialEq, Eq)]
pub struct UrlAnnotation {
    pub start: usize,
    pub end: usize,
    pub url: String,
    pub display_url: String,
}

/// A hashtag annotation: a codepoint span and the tag without its `#`.
#[derive(Clone, Debug, PartialEq, Eq)]
pub struct TagAnnotation {
    pub start: usize,
    pub end: usize,
    pub tag: String,
}

/// A mention annotation: a codepoint span and the mentioned username
/// without its `@`.
#[derive(Clone, Debug, PartialEq, Eq)]
pub struct MentionAnnotation {
    pub start: usize,
    pub end: usize,
    pub username: String,
}

/// A reference from a post to another post, by kind and target id.
#[derive(Clone, Copy, Debug, PartialEq, Eq)]
pub struct Reference {
    pub kind: RefKind,
    pub target_id: u64,
}

/// A media object from the shared pool. `url`, `width` and `height` may be
/// missing; such an object is never rendered.
#[derive(Clone, Debug, PartialEq, Eq)]
pub struct Media {
    pub key: String,
    pub kind: MediaKind,
    pub url: Option<String>,
    pub width: Option<usize>,
    pub height: Option<usize>,
}

/// An immutable snapshot of one post: its text as a Unicode codepoint
/// sequence, its annotations, the keys of its attached media, and its
/// references to other posts.
#[derive(Clone, Debug, PartialEq, Eq)]
pub struct Post {
    pub id: u64,
    pub text: String,
    pub urls: Vec<UrlAnnotation>,
    pub hashtags: Vec<TagAnnotation>,
    pub mentions: Vec<MentionAnnotation>,
    pub attachment_keys: Vec<String>,
    pub references: Vec<Reference>,
}

/// The author of a post. The rendering core does not process it; callers
/// use it to build a profile link.
#[derive(Clone, Debug, PartialEq, Eq)]
pub struct Author {
    pub id: u64,
    pub username: String,
}

/// One normalized annotation, ready for merging: a codepoint span, the
/// kind it came from, the link target and the text shown for it.
#[derive(Clone, Debug, PartialEq, Eq)]
pub struct Entity {
    pub kind: EntityKind,
    pub start: usize,
    pub end: usize,
    pub url: String,
    pub label: String,
}

/// The smallest renderable unit: a span of plain text, a link, or a line
/// break.
#[derive(Clone, Debug, PartialEq, Eq)]
pub enum Run {
    Text(String),
    Link { url: String, label: String },
    LineBreak,
}

/// An ordered sequence of runs; one line of a paragraph.
#[derive(Clone, Debug, PartialEq, Eq)]
pub struct Line {
    pub runs: Vec<Run>,
}

/// An ordered sequence of lines, split on single newlines.
#[derive(Clone, Debug, PartialEq, Eq)]
pub struct Paragraph {
    pub lines: Vec<Line>,
}

/// The rendered form of one post: its paragraphs, the media objects that
/// passed filtering, and at most one embedded quoted post. The quoted post
/// never embeds a further quote.
#[derive(Debug, PartialEq, Eq)]
pub struct RenderedPost {
    pub paragraphs: Vec<Paragraph>,
    pub media: Vec<Media>,
    pub quoted: Option<Box<RenderedPost>>,
}

/// An ordered sequence of rendered posts; a timeline view. A visual
/// separator belongs between consecutive posts, never after the last; that
/// is the presentation layer's concern, so the document holds only the
/// sequence.
#[derive(Debug, PartialEq, Eq)]
pub struct RenderedDocument {
    pub posts: Vec<RenderedPost>,
}

/// Mathematical view of an [`Entity`].
pub struct EntityView {
    pub kind: EntityKind,
    pub start: int,
    pub end: int,
    pub url: Seq<char>,
    pub label: Seq<char>,
}

/// Mathematical view of a [`UrlAnnotation`].
pub struct UrlAnnotationView {
    pub start: int,
    pub end: int,
    pub url: Seq<char>,
    pub display_url: Seq<char>,
}

/// Mathematical view of a [`TagAnnotation`].
pub struct TagAnnotationView {
    pub start: int,
    pub end: int,
    pub tag: Seq<char>,
}

/// Mathematical view of a [`MentionAnnotation`].
pub struct MentionAnnotationView {
    pub start: int,
    pub end: int,
    pub username: Seq<char>,
}

/// Mathematical view of a [`Reference`].
pub struct ReferenceView {
    pub kind: RefKind,
    pub target_id: int,
}

/// Mathematical view of a [`Media`].
pub struct MediaView {
    pub key: Seq<char>,
    pub kind: MediaKind,
    pub url: Option<Seq<char>>,
    pub width: Option<int>,
    pub height: Option<int>,
}

/// Mathematical view of a [`Post`].
pub struct PostView {
    pub id: int,
    pub text: Seq<char>,
    pub urls: Seq<UrlAnnotationView>,
    pub hashtags: Seq<TagAnnotationView>,
    pub mentions: Seq<MentionAnnotationView>,
    pub attachment_keys: Seq<Seq<char>>,
    pub references: Seq<ReferenceView>,
}

/// Mathematical view of a [`Run`]: the same three shapes over `Seq<char>`.
pub enum RunModel {
    Text(Seq<char>),
    Link { url: Seq<char>, label: Seq<char> },
    LineBreak,
}

impl DeepView for Entity {
    type V = EntityView;

    open spec fn deep_view(&self) -> EntityView {
        EntityView {
            kind: self.kind,
            start: self.start as int,
            end: self.end as int,
            url: self.url@,
            label: self.label@,
        }
    }
}

impl DeepView for UrlAnnotation {
    type V = UrlAnnotationView;

    open spec fn deep_view(&self) -> UrlAnnotationView {
        UrlAnnotationView {
            start: self.start as int,
            end: self.end as int,
            url: self.url@,
            display_url: self.display_url@,
        }
    }
}

impl DeepView for TagAnnotation {
    type V = TagAnnotationView;

    open spec fn deep_view(&self) -> TagAnnotationView {
        TagAnnotationView { start: self.start as int, end: self.end as int, tag: self.tag@ }
    }
}

impl DeepView for MentionAnnotation {
    type V = MentionAnnotationView;

    open spec fn deep_view(&self) -> MentionAnnotationView {
        MentionAnnotationView {
            start: self.start as int,
            end: self.end as int,
            username: self.username@,
        }
    }
}

impl DeepView for Reference {
    type V = ReferenceView;

    open spec fn deep_view(&self) -> ReferenceView {
        ReferenceView { kind: self.kind, target_id: self.target_id as int }
    }
}

impl DeepView for Media {
    type V = MediaView;

    open spec fn deep_view(&self) -> MediaView {
        MediaView {
            key: self.key@,
            kind: self.kind,
            url: match self.url {
                Some(u) => Some(u@),
                None => None,
            },
            width: match self.width {
                Some(w) => Some(w as int),
                None => None,
            },
            height: match self.height {
                Some(h) => Some(h as int),
                None => None,
            },
        }
    }
}

impl DeepView for Post {
    type V = PostView;

    open spec fn deep_view(&self) -> PostView {
        PostView {
            id: self.id as int,
            text: self.text@,
            urls: self.urls.deep_view(),
            hashtags: self.hashtags.deep_view(),
            mentions: self.mentions.deep_view(),
            attachment_keys: self.attachment_keys.deep_view(),
            references: self.references.deep_view(),
        }
    }
}

impl DeepView for Run {
    type V = RunModel;

    open spec fn deep_view(&self) -> RunModel {
        match self {
            Run::Text(t) => RunModel::Text(t@),
            Run::Link { url, label } => RunModel::Link { url: url@, label: label@ },
            Run::LineBreak => RunModel::LineBreak,
        }
    }
}

impl DeepView for Line {
    type V = Seq<RunModel>;

    open spec fn deep_view(&self) -> Seq<RunModel> {
        self.runs.deep_view()
    }
}

impl DeepView for Paragraph {
    type V = Seq<Seq<RunModel>>;

    open spec fn deep_view(&self) -> Seq<Seq<RunModel>> {
        self.lines.deep_view()
    }
}

/// A normalized entity is well formed for a text of `len` codepoints when
/// its span is non-empty and lies inside the text. Entities that fail this
/// are dropped before merging and the post still renders.
pub open spec fn valid_entity(e: EntityView, len: int) -> bool {
    0 <= e.start && e.start < e.end && e.end <= len
}

} // verus!
