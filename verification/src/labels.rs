use vstd::prelude::*;

use crate::bitmap::{hcat, rows_of, LabelBitmap};
use crate::picture::{scale_to_tape, scaled_ink, scaled_width, scalable, LumaImage};
use crate::error::PtlError;
use crate::text::{chars_of, looks_like_image, spec_looks_like_image, str_eq, trim, trim_str, starts_with};

verus! {

/// Tape height assumed for PNG output when no printer can be reached
/// (24 mm tape).
pub const DEFAULT_TAPE_PX: u32 = 128;

/// The text lines and optional image path of a label.
pub type LabelModel = (Seq<Seq<char>>, Option<Seq<char>>);

/// The view of an optional string.
pub open spec fn opt_view(s: Option<String>) -> Option<Seq<char>> {
    match s {
        Some(t) => Some(t@),
        None => None,
    }
}

/// The views of a list of strings.
pub open spec fn views(v: Seq<String>) -> Seq<Seq<char>> {
    v.map_values(|s: String| s@)
}

/// A label with neither text nor an image.
pub open spec fn model_is_empty(m: LabelModel) -> bool {
    m.0.len() == 0 && m.1 is None
}

/// A single label to be printed.
#[derive(Debug)]
pub struct LabelSpec {
    pub lines: Vec<String>,
    /// Path of an image to place after the text.
    pub image: Option<String>,
}

impl LabelSpec {
    pub open spec fn model(&self) -> LabelModel {
        (views(self.lines@), opt_view(self.image))
    }

    /// A label with no text and no image.
    pub fn new() -> (r: Self)
        ensures
            r.lines@.len() == 0,
            r.image is None,
    {
        LabelSpec { lines: Vec::new(), image: None }
    }

    pub fn is_empty(&self) -> (r: bool)
        ensures
            r == (self.lines@.len() == 0 && self.image is None),
            r == model_is_empty(self.model()),
    {
        self.lines.len() == 0 && self.image.is_none()
    }
}

impl Default for LabelSpec {
    fn default() -> (r: Self)
        ensures
            r.lines@.len() == 0,
            r.image is None,
    {
        LabelSpec::new()
    }
}

/// `{"lines":[...],"image":"..."}` or `{"type":"image","path":"..."}`.
#[derive(Debug)]
pub struct JsonLabelObject {
    pub lines: Option<Vec<String>>,
    pub image: Option<String>,
    /// The `"type"` member: `"image"` selects the image-only form.
    pub kind: Option<String>,
    pub path: Option<String>,
}

/// One line of `--json` input.
#[derive(Debug)]
pub enum JsonLine {
    /// `["line1", "line2"]`  — text label
    TextArray(Vec<String>),
    /// `{"type":"image","path":"..."}` or `{"lines":[...],"image":"..."}`
    Object(JsonLabelObject),
}

/// The label that a JSON line describes.
pub open spec fn json_label(j: JsonLine) -> LabelModel {
    match j {
        JsonLine::TextArray(lines) => (views(lines@), None),
        JsonLine::Object(obj) => {
            let lines = match obj.lines {
                Some(l) => views(l@),
                None => Seq::empty(),
            };
            let image = if obj.kind matches Some(k) && k@ == "image"@ {
                opt_view(obj.path)
            } else {
                opt_view(obj.image)
            };
            (lines, image)
        },
    }
}

impl JsonLine {
    pub fn into_spec(self) -> (r: LabelSpec)
        ensures
            r.model() == json_label(self),
    {
        match self {
            JsonLine::TextArray(lines) => LabelSpec { lines, image: None },
            JsonLine::Object(obj) => {
                let is_image_form = match &obj.kind {
                    Some(k) => str_eq(k.as_str(), "image"),
                    None => false,
                };
                let image = if is_image_form {
                    obj.path
                } else {
                    obj.image
                };
                let lines = match obj.lines {
                    Some(l) => l,
                    None => Vec::new(),
                };
                proof {
                    assert(views(Seq::<String>::empty()) =~= Seq::<Seq<char>>::empty());
                }
                LabelSpec { lines, image }
            },
        }
    }
}

/// The trimmed text of a `--json` input line, unless the line is blank or a
/// `//` comment.
pub open spec fn spec_json_line_content(line: Seq<char>) -> Option<Seq<char>> {
    let t = trim(line);
    if t.len() == 0 || starts_with(t, "//"@) {
        None
    } else {
        Some(t)
    }
}

/// What a `--json` input line holds for the JSON parser, if anything.
pub fn json_line_content(line: &str) -> (r: Option<String>)
    ensures
        opt_view(r) == spec_json_line_content(line@),
{
    let t = trim_str(line);
    let cs = chars_of(t.as_str());
    proof {
        reveal_strlit("//");
    }
    if cs.len() == 0 {
        return None;
    }
    if cs.len() >= 2 && cs[0] == '/' && cs[1] == '/' {
        assert(cs@.subrange(0, 2) =~= "//"@);
        return None;
    }
    proof {
        if cs@.len() >= 2 {
            assert(cs@.subrange(0, 2)[0] == cs@[0]);
            assert(cs@.subrange(0, 2)[1] == cs@[1]);
        }
    }
    Some(t)
}

/// Positional arguments split at each bare `--`, in order (n separators make
/// n + 1 groups, some possibly empty).
pub open spec fn split_on_separator(args: Seq<Seq<char>>) -> Seq<Seq<Seq<char>>>
    decreases args.len(),
{
    if args.len() == 0 {
        seq![Seq::empty()]
    } else {
        let groups = split_on_separator(args.drop_last());
        if args.last() == "--"@ {
            groups.push(Seq::empty())
        } else {
            groups.update(groups.len() - 1, groups.last().push(args.last()))
        }
    }
}

/// The label a group of arguments describes: image-like arguments set the
/// image (the last one wins), the others are text lines.
pub open spec fn group_label(group: Seq<Seq<char>>) -> LabelModel
    decreases group.len(),
{
    if group.len() == 0 {
        (Seq::empty(), None)
    } else {
        let (lines, image) = group_label(group.drop_last());
        let a = group.last();
        if spec_looks_like_image(a) {
            (lines, Some(a))
        } else {
            (lines.push(a), image)
        }
    }
}

/// The labels of the groups, keeping only non-empty groups whose label is
/// non-empty.
pub open spec fn labels_from_groups(groups: Seq<Seq<Seq<char>>>) -> Seq<LabelModel>
    decreases groups.len(),
{
    if groups.len() == 0 {
        Seq::empty()
    } else {
        let g = groups.last();
        let before = labels_from_groups(groups.drop_last());
        if g.len() > 0 && !model_is_empty(group_label(g)) {
            before.push(group_label(g))
        } else {
            before
        }
    }
}

/// The labels that positional arguments describe.
pub open spec fn positional_labels(args: Seq<Seq<char>>) -> Seq<LabelModel> {
    labels_from_groups(split_on_separator(args))
}

pub proof fn lemma_split_nonempty(args: Seq<Seq<char>>)
    ensures
        split_on_separator(args).len() >= 1,
    decreases args.len(),
{
    if args.len() > 0 {
        lemma_split_nonempty(args.drop_last());
    }
}

/// Split positional args on bare `--` into label groups, then classify
/// each token as an image path (if it looks like one) or a text line.
pub fn parse_positional_args(args: &[String]) -> (r: Vec<LabelSpec>)
    ensures
        r@.map_values(|s: LabelSpec| s.model()) == positional_labels(views(args@)),
{
    let ghost all = views(args@);
    let mut out: Vec<LabelSpec> = Vec::new();
    let mut current = LabelSpec::new();
    let mut count: usize = 0;
    let mut i: usize = 0;
    proof {
        assert(all.take(0) =~= Seq::<Seq<char>>::empty());
        assert(views(Seq::<String>::empty()) =~= Seq::<Seq<char>>::empty());
        assert(out@.map_values(|s: LabelSpec| s.model()) =~= Seq::<LabelModel>::empty());
    }
    while i < args.len()
        invariant
            0 <= i <= args@.len(),
            all == views(args@),
            split_on_separator(all.take(i as int)).len() >= 1,
            out@.map_values(|s: LabelSpec| s.model()) == labels_from_groups(
                split_on_separator(all.take(i as int)).drop_last(),
            ),
            current.model() == group_label(split_on_separator(all.take(i as int)).last()),
            count == split_on_separator(all.take(i as int)).last().len(),
            count <= i,
        decreases args@.len() - i,
    {
        let ghost g = split_on_separator(all.take(i as int));
        let ghost mapped = out@.map_values(|s: LabelSpec| s.model());
        assert(all.take(i + 1).drop_last() =~= all.take(i as int));
        assert(all.take(i + 1).last() == args@[i as int]@);
        let arg = &args[i];
        if str_eq(arg.as_str(), "--") {
            let ghost gn = g.push(Seq::empty());
            assert(gn.drop_last() =~= g);
            if count > 0 && !current.is_empty() {
                let ghost m = current.model();
                out.push(current);
                assert(out@.map_values(|s: LabelSpec| s.model()) =~= mapped.push(m));
            }
            current = LabelSpec::new();
            count = 0;
            proof {
                assert(views(Seq::<String>::empty()) =~= Seq::<Seq<char>>::empty());
                assert(gn.last() =~= Seq::<Seq<char>>::empty());
            }
        } else {
            let ghost gl = g.last().push(args@[i as int]@);
            let ghost gn = g.update(g.len() - 1, gl);
            assert(gn.drop_last() =~= g.drop_last());
            assert(gl.drop_last() =~= g.last());
            let ghost old_lines = current.lines@;
            if looks_like_image(arg.as_str()) {
                current.image = Some(arg.clone());
            } else {
                current.lines.push(arg.clone());
                assert(views(current.lines@) =~= views(old_lines).push(args@[i as int]@));
            }
            count = count + 1;
        }
        i = i + 1;
    }
    let ghost g = split_on_separator(all.take(i as int));
    let ghost mapped = out@.map_values(|s: LabelSpec| s.model());
    assert(all.take(i as int) =~= all);
    if count > 0 && !current.is_empty() {
        let ghost m = current.model();
        out.push(current);
        assert(out@.map_values(|s: LabelSpec| s.model()) =~= mapped.push(m));
    }
    out
}

/// The bitmap of one label: its text (if any) followed by its image (if
/// any), the image scaled to the tape height with its aspect ratio kept.
pub fn assemble_label(text: Option<LabelBitmap>, image: Option<LumaImage>, tape_px: u32) -> (r:
    Result<LabelBitmap, PtlError>)
    requires
        text matches Some(t) ==> t.wf() && t.height == tape_px,
        image matches Some(m) ==> scalable(m, tape_px),
        match (text, image) {
            (Some(t), Some(m)) => {
                &&& t.width + scaled_width(m.width, m.height, tape_px) <= u32::MAX
                &&& (t.width + scaled_width(m.width, m.height, tape_px)) * tape_px <= u32::MAX
            },
            _ => true,
        },
    ensures
        match (text, image) {
            (None, None) => r == Err::<LabelBitmap, PtlError>(PtlError::EmptyLabel),
            (Some(t), None) => r == Ok::<LabelBitmap, PtlError>(t),
            (None, Some(m)) => r matches Ok(b) && {
                &&& b.wf()
                &&& b.height == tape_px
                &&& b.width == scaled_width(m.width, m.height, tape_px)
                &&& b.pixels@ == scaled_ink(m, tape_px)
            },
            (Some(t), Some(m)) => r matches Ok(b) && {
                &&& b.wf()
                &&& b.height == tape_px
                &&& b.width == t.width + scaled_width(m.width, m.height, tape_px)
                &&& b.rows() == hcat(
                    t.rows(),
                    rows_of(
                        scaled_ink(m, tape_px),
                        scaled_width(m.width, m.height, tape_px),
                        tape_px as nat,
                    ),
                )
            },
        },
{
    let scaled = match &image {
        Some(m) => Some(scale_to_tape(m, tape_px)),
        None => None,
    };
    match (text, scaled) {
        (Some(mut t), Some(m)) => {
            t.append(&m);
            Ok(t)
        },
        (Some(t), None) => Ok(t),
        (None, Some(m)) => Ok(m),
        (None, None) => Err(PtlError::EmptyLabel),
    }
}

/// Tape height to render for: the open printer's, or the default when only
/// a PNG is written and no printer answered. `None` means the missing
/// printer is an error.
pub fn tape_px_or_default(printer_px: Option<u32>, png_mode: bool) -> (r: Option<u32>)
    ensures
        printer_px matches Some(px) ==> r == Some(px),
        printer_px is None && png_mode ==> r == Some(DEFAULT_TAPE_PX),
        printer_px is None && !png_mode ==> r is None,
{
    match printer_px {
        Some(px) => Some(px),
        None => if png_mode {
            Some(DEFAULT_TAPE_PX)
        } else {
            None
        },
    }
}

} // verus!
