//! The annotations the Add panel offers: which command adds which kind,
//! the kind's label, and the number a new step shows.

use vstd::prelude::*;
use crate::text::{str_eq, push_count, decimal};

verus! {

/// A kind of annotation.
#[derive(Clone, Copy, Debug, PartialEq, Eq, Structural)]
pub enum Annotation {
    Title,
    LowerThird,
    Label,
    Figure,
    Blur,
    Pixelate,
    Highlight,
    Spotlight,
    Step,
    Image,
    Text,
}

/// The kind that `action` adds, if it adds one.
pub open spec fn kind_of_action(action: Seq<char>) -> Option<Annotation> {
    if action == "add-title"@ {
        Some(Annotation::Title)
    } else if action == "add-lower-third"@ {
        Some(Annotation::LowerThird)
    } else if action == "add-label"@ {
        Some(Annotation::Label)
    } else if action == "add-figure"@ {
        Some(Annotation::Figure)
    } else if action == "add-blur"@ {
        Some(Annotation::Blur)
    } else if action == "add-pixelate"@ {
        Some(Annotation::Pixelate)
    } else if action == "add-highlight"@ {
        Some(Annotation::Highlight)
    } else if action == "add-spotlight"@ {
        Some(Annotation::Spotlight)
    } else if action == "add-step"@ {
        Some(Annotation::Step)
    } else if action == "add-image"@ {
        Some(Annotation::Image)
    } else if action == "add-text"@ {
        Some(Annotation::Text)
    } else {
        None
    }
}

/// The type an annotation of the kind is saved with.
pub open spec fn type_of(kind: Annotation) -> Seq<char> {
    match kind {
        Annotation::Title | Annotation::LowerThird | Annotation::Label | Annotation::Text => "text"@,
        Annotation::Figure => "figure"@,
        Annotation::Blur | Annotation::Pixelate => "blur"@,
        Annotation::Highlight => "highlight"@,
        Annotation::Spotlight => "spotlight"@,
        Annotation::Step => "step"@,
        Annotation::Image => "image"@,
    }
}

/// Each kind is saved with the type the editor gives it: the text kinds
/// (title, lower third, label, text) as "text", blur and pixelate as
/// "blur", and figure, highlight, spotlight, step and image under their own
/// names; two kinds share a saved type only within those two groups.
pub proof fn law_saved_types(a: Annotation, b: Annotation)
    ensures
        type_of(Annotation::Title) == "text"@,
        type_of(Annotation::LowerThird) == "text"@,
        type_of(Annotation::Label) == "text"@,
        type_of(Annotation::Text) == "text"@,
        type_of(Annotation::Figure) == "figure"@,
        type_of(Annotation::Blur) == "blur"@,
        type_of(Annotation::Pixelate) == "blur"@,
        type_of(Annotation::Highlight) == "highlight"@,
        type_of(Annotation::Spotlight) == "spotlight"@,
        type_of(Annotation::Step) == "step"@,
        type_of(Annotation::Image) == "image"@,
        type_of(a) == type_of(b) <==> (a == b || (text_kind(a) && text_kind(b))
            || ((a == Annotation::Blur || a == Annotation::Pixelate) && (b == Annotation::Blur || b == Annotation::Pixelate))),
{
    reveal_strlit("text");
    reveal_strlit("figure");
    reveal_strlit("blur");
    reveal_strlit("highlight");
    reveal_strlit("spotlight");
    reveal_strlit("step");
    reveal_strlit("image");
    let names = seq!["text"@, "figure"@, "blur"@, "highlight"@, "spotlight"@, "step"@, "image"@];
    assert forall|i: int, j: int| 0 <= i < 7 && 0 <= j < 7 && i != j implies names[i] != names[j] by {
        if names[i].len() == names[j].len() {
            assert(names[i][0] != names[j][0] || names[i][1] != names[j][1]);
        }
    }
    assert(names[0] != names[1] && names[0] != names[2] && names[0] != names[3] && names[0] != names[4]
        && names[0] != names[5] && names[0] != names[6]);
    assert(names[1] != names[2] && names[1] != names[3] && names[1] != names[4] && names[1] != names[5]
        && names[1] != names[6]);
    assert(names[2] != names[3] && names[2] != names[4] && names[2] != names[5] && names[2] != names[6]);
    assert(names[3] != names[4] && names[3] != names[5] && names[3] != names[6]);
    assert(names[4] != names[5] && names[4] != names[6]);
    assert(names[5] != names[6]);
}

/// The steps among `types` are the entries that are exactly "step": a new
/// step's number is one more than how many there are.
pub proof fn law_steps_are_counted(types: Seq<Seq<char>>)
    ensures
        steps_in(types) == types.filter(|t: Seq<char>| t == "step"@).len(),
    decreases types.len(),
{
    if types.len() > 0 {
        law_steps_are_counted(types.drop_last());
        types.drop_last().lemma_filter_len_push(|t: Seq<char>| t == "step"@, types.last());
        assert(types.drop_last().push(types.last()) =~= types);
    }
}

/// Each Add command makes its own kind: "add-" and the kind's name in
/// kebab case; any other action adds nothing.
pub proof fn law_add_commands_make_their_kinds(action: Seq<char>)
    ensures
        kind_of_action("add-title"@) == Some(Annotation::Title),
        kind_of_action("add-lower-third"@) == Some(Annotation::LowerThird),
        kind_of_action("add-label"@) == Some(Annotation::Label),
        kind_of_action("add-figure"@) == Some(Annotation::Figure),
        kind_of_action("add-blur"@) == Some(Annotation::Blur),
        kind_of_action("add-pixelate"@) == Some(Annotation::Pixelate),
        kind_of_action("add-highlight"@) == Some(Annotation::Highlight),
        kind_of_action("add-spotlight"@) == Some(Annotation::Spotlight),
        kind_of_action("add-step"@) == Some(Annotation::Step),
        kind_of_action("add-image"@) == Some(Annotation::Image),
        kind_of_action("add-text"@) == Some(Annotation::Text),
        kind_of_action(action) is Some ==> "add-"@.is_prefix_of(action),
{
    reveal_strlit("add-");
    reveal_strlit("add-title");
    reveal_strlit("add-lower-third");
    reveal_strlit("add-label");
    reveal_strlit("add-figure");
    reveal_strlit("add-blur");
    reveal_strlit("add-pixelate");
    reveal_strlit("add-highlight");
    reveal_strlit("add-spotlight");
    reveal_strlit("add-step");
    reveal_strlit("add-image");
    reveal_strlit("add-text");
    let names = seq!["add-title"@, "add-lower-third"@, "add-label"@, "add-figure"@, "add-blur"@,
        "add-pixelate"@, "add-highlight"@, "add-spotlight"@, "add-step"@, "add-image"@, "add-text"@];
    assert forall|i: int, j: int| 0 <= i < 11 && 0 <= j < 11 && i != j implies names[i] != names[j] by {
        if names[i].len() == names[j].len() {
            assert(names[i][4] != names[j][4] || names[i][5] != names[j][5] || names[i][6] != names[j][6]);
        }
    }
    assert forall|i: int| 0 <= i < 11 implies "add-"@.is_prefix_of(#[trigger] names[i]) by {
        assert(names[i].take(4) =~= "add-"@);
    }
}

/// Whether the kind is one of the text annotations.
pub open spec fn text_kind(k: Annotation) -> bool {
    k == Annotation::Title || k == Annotation::LowerThird || k == Annotation::Label || k == Annotation::Text
}

/// The label the Add panel shows for the kind.
pub open spec fn label_of(kind: Annotation) -> Seq<char> {
    match kind {
        Annotation::Title => "Title"@,
        Annotation::LowerThird => "Lower third"@,
        Annotation::Label => "Label"@,
        Annotation::Figure => "Arrow"@,
        Annotation::Blur => "Blur"@,
        Annotation::Pixelate => "Pixelate"@,
        Annotation::Highlight => "Highlight"@,
        Annotation::Spotlight => "Spotlight"@,
        Annotation::Step => "Step"@,
        Annotation::Image => "Image"@,
        Annotation::Text => "Text"@,
    }
}

/// Every kind has its own label on the Add panel.
pub proof fn law_labels_tell_kinds_apart(a: Annotation, b: Annotation)
    ensures
        label_of(a) == label_of(b) <==> a == b,
{
    reveal_strlit("Title");
    reveal_strlit("Lower third");
    reveal_strlit("Label");
    reveal_strlit("Arrow");
    reveal_strlit("Blur");
    reveal_strlit("Pixelate");
    reveal_strlit("Highlight");
    reveal_strlit("Spotlight");
    reveal_strlit("Step");
    reveal_strlit("Image");
    reveal_strlit("Text");
    if a != b {
        let (x, y) = (label_of(a), label_of(b));
        if x.len() == y.len() {
            assert(x[0] != y[0]);
        }
    }
}

impl Annotation {
    /// The kind that `action` adds: `kind_of_action`.
    pub fn from_action(action: &str) -> (r: Option<Annotation>)
        ensures
            r == kind_of_action(action@),
    {
        if str_eq(action, "add-title") {
            Some(Annotation::Title)
        } else if str_eq(action, "add-lower-third") {
            Some(Annotation::LowerThird)
        } else if str_eq(action, "add-label") {
            Some(Annotation::Label)
        } else if str_eq(action, "add-figure") {
            Some(Annotation::Figure)
        } else if str_eq(action, "add-blur") {
            Some(Annotation::Blur)
        } else if str_eq(action, "add-pixelate") {
            Some(Annotation::Pixelate)
        } else if str_eq(action, "add-highlight") {
            Some(Annotation::Highlight)
        } else if str_eq(action, "add-spotlight") {
            Some(Annotation::Spotlight)
        } else if str_eq(action, "add-step") {
            Some(Annotation::Step)
        } else if str_eq(action, "add-image") {
            Some(Annotation::Image)
        } else if str_eq(action, "add-text") {
            Some(Annotation::Text)
        } else {
            None
        }
    }

    /// `type_of` the kind.
    pub fn saved_type(&self) -> (r: &'static str)
        ensures
            r@ == type_of(*self),
    {
        match self {
            Annotation::Title | Annotation::LowerThird | Annotation::Label | Annotation::Text => "text",
            Annotation::Figure => "figure",
            Annotation::Blur | Annotation::Pixelate => "blur",
            Annotation::Highlight => "highlight",
            Annotation::Spotlight => "spotlight",
            Annotation::Step => "step",
            Annotation::Image => "image",
        }
    }

    /// `label_of` the kind.
    pub fn label(&self) -> (r: &'static str)
        ensures
            r@ == label_of(*self),
    {
        match self {
            Annotation::Title => "Title",
            Annotation::LowerThird => "Lower third",
            Annotation::Label => "Label",
            Annotation::Figure => "Arrow",
            Annotation::Blur => "Blur",
            Annotation::Pixelate => "Pixelate",
            Annotation::Highlight => "Highlight",
            Annotation::Spotlight => "Spotlight",
            Annotation::Step => "Step",
            Annotation::Image => "Image",
            Annotation::Text => "Text",
        }
    }
}

/// How many of `types` are steps.
pub open spec fn steps_in(types: Seq<Seq<char>>) -> nat
    decreases types.len(),
{
    if types.len() == 0 {
        0
    } else {
        steps_in(types.drop_last()) + if types.last() == "step"@ { 1nat } else { 0nat }
    }
}

/// The number a new step shows, over annotations of the `types` given:
/// one more than the steps there are.
pub fn step_number(types: &Vec<String>) -> (r: String)
    ensures
        r@ == decimal(steps_in(crate::text::texts(types@)) + 1),
{
    let ghost all = crate::text::texts(types@);
    let mut count: u128 = 0;
    let mut i: usize = 0;
    while i < types.len()
        invariant
            all == crate::text::texts(types@),
            i <= types.len(),
            count == steps_in(all.take(i as int)),
            count <= i,
        decreases types.len() - i,
    {
        assert(all.take(i as int + 1).drop_last() =~= all.take(i as int));
        assert(all.take(i as int + 1).last() == types@[i as int]@);
        if str_eq(types[i].as_str(), "step") {
            count = count + 1;
        }
        i += 1;
    }
    assert(all.take(types.len() as int) =~= all);
    let mut s = String::new();
    push_count(&mut s, count + 1);
    s
}

} // verus!
