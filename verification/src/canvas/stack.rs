//! The structure of an OpenRaster `stack.xml`: one `image` root holding one
//! root `stack`, nested `stack` groups and empty `layer` elements. The
//! document is read as a sequence of XML events; each event is checked
//! against what came before, and the layers and groups come out in drawing
//! order (a group after its children) with their nesting depth.

use vstd::prelude::*;
use vstd::string::StringExecFns;
use vstd::utf8::encode_utf8;

use crate::canvas::document::{pixel_count, valid_dimensions, BlendMode, MAX_HIERARCHY_DEPTH};
use crate::canvas::error::{CoreError, FormatError};
use crate::canvas::ora::{ora_blend_of, parse_blend, safe_path, safe_path_spec};
use crate::text::chars_of;

verus! {

/// How the host reads an attribute value as a floating-point number.
#[derive(Clone, Copy, Debug, PartialEq, Eq)]
pub enum NumberReading {
    /// Not a number.
    Invalid,
    /// A number that is not finite, or outside `0..=1`.
    OutOfRange,
    /// Exactly one.
    One,
    /// Any other number within `0..=1`.
    Fraction,
}

/// An attribute as written, with the host's reading of its value as a
/// number (consulted only for opacity).
pub struct XmlAttribute {
    pub name: String,
    pub value: String,
    pub number: NumberReading,
}

/// One event of an XML document, in document order; the end of the
/// sequence is the end of the document.
pub enum XmlEvent {
    /// The `<?xml ... ?>` declaration.
    Declaration,
    /// An opening tag.
    Start { name: String, attributes: Vec<XmlAttribute> },
    /// A self-closing tag.
    Empty { name: String, attributes: Vec<XmlAttribute> },
    /// A closing tag.
    End { name: String },
    /// Character data; `blank` when it is all ASCII white space.
    Text { blank: bool },
    /// A document type declaration.
    DocType,
    /// Anything else: comments, processing instructions, character data
    /// sections.
    Other,
}

/// Properties of a stack or layer: name, visibility, opacity as written
/// (absent means fully opaque) and blend mode.
pub struct StackProperties {
    pub name: String,
    pub visible: bool,
    pub opacity: Option<String>,
    pub blend: BlendMode,
}

/// Where a layer's pixels come from: an archive path and an offset.
pub struct LayerSource {
    pub src: String,
    pub x: i32,
    pub y: i32,
}

/// A layer (with its source) or a group (without), at its nesting depth
/// below the root stack.
pub struct StackEntry {
    pub properties: StackProperties,
    pub layer: Option<LayerSource>,
    pub depth: usize,
}

/// What a `stack.xml` describes: the canvas size, the root stack's
/// properties, and every layer and group in drawing order.
pub struct StackImage {
    pub width: u32,
    pub height: u32,
    pub root: StackProperties,
    pub entries: Vec<StackEntry>,
}

/// Properties as values.
pub type PropertiesView = (Seq<char>, bool, Option<Seq<char>>, BlendMode);

/// An entry as values.
pub type EntryView = (PropertiesView, Option<(Seq<char>, i32, i32)>, nat);

pub open spec fn properties_view(p: StackProperties) -> PropertiesView {
    (
        p.name@,
        p.visible,
        match p.opacity {
            Some(o) => Some(o@),
            None => None,
        },
        p.blend,
    )
}

pub open spec fn entry_view(e: StackEntry) -> EntryView {
    (
        properties_view(e.properties),
        match e.layer {
            Some(l) => Some((l.src@, l.x, l.y)),
            None => None,
        },
        e.depth as nat,
    )
}

/// Where reading stands relative to the `image` root.
#[derive(Clone, Copy, Debug, PartialEq, Eq, Structural)]
pub enum ImagePhase {
    NotSeen,
    Open,
    Closed,
}

/// The reading state: the image phase, the canvas size once read, the
/// open stacks from the root inwards (with whether each is the root, and
/// whether it is a root that adds no nesting), the root stack once closed,
/// and the entries so far.
pub struct StackState {
    pub phase: ImagePhase,
    pub size: Option<(u32, u32)>,
    pub open: Seq<(PropertiesView, bool, bool)>,
    pub root: Option<PropertiesView>,
    pub entries: Seq<EntryView>,
}

/// The state before the first event.
pub open spec fn initial_state() -> StackState {
    StackState { phase: ImagePhase::NotSeen, size: None, open: seq![], root: None, entries: seq![] }
}

/// Value of a string of ASCII decimal digits.
pub open spec fn digits_value(s: Seq<char>) -> int
    decreases s.len(),
{
    if s.len() == 0 {
        0
    } else {
        digits_value(s.drop_last()) * 10 + (s.last() as int - '0' as int)
    }
}

/// Whether every character is an ASCII decimal digit.
pub open spec fn all_digits(s: Seq<char>) -> bool {
    forall|i: int| 0 <= i < s.len() ==> '0' <= #[trigger] s[i] <= '9'
}

/// A `u32` as Rust's `str::parse` reads it: an optional `+`, then one or
/// more decimal digits, within range.
pub open spec fn parse_u32_spec(s: Seq<char>) -> Option<u32> {
    let digits = if s.len() > 0 && s[0] == '+' {
        s.drop_first()
    } else {
        s
    };
    if digits.len() > 0 && all_digits(digits) && digits_value(digits) <= u32::MAX {
        Some(digits_value(digits) as u32)
    } else {
        None
    }
}

/// An `i32` as Rust's `str::parse` reads it: an optional `+` or `-`, then
/// one or more decimal digits, within range.
pub open spec fn parse_i32_spec(s: Seq<char>) -> Option<i32> {
    let negative = s.len() > 0 && s[0] == '-';
    let digits = if s.len() > 0 && (s[0] == '+' || s[0] == '-') {
        s.drop_first()
    } else {
        s
    };
    if digits.len() == 0 || !all_digits(digits) {
        None
    } else if negative {
        if digits_value(digits) <= 0x8000_0000 {
            Some((-digits_value(digits)) as i32)
        } else {
            None
        }
    } else if digits_value(digits) <= i32::MAX {
        Some(digits_value(digits) as i32)
    } else {
        None
    }
}

/// Index of the first attribute called `name`.
pub open spec fn find_attribute(attributes: Seq<XmlAttribute>, name: Seq<char>) -> Option<int>
    decreases attributes.len(),
{
    if attributes.len() == 0 {
        None
    } else {
        match find_attribute(attributes.drop_last(), name) {
            Some(i) => Some(i),
            None => if attributes.last().name@ == name {
                Some(attributes.len() - 1)
            } else {
                None
            },
        }
    }
}

/// Whether two attributes share a name.
pub open spec fn repeats_name(attributes: Seq<XmlAttribute>) -> bool {
    exists|i: int, j: int|
        0 <= i < j < attributes.len() && (#[trigger] attributes[i]).name@ == (#[trigger] attributes[j]).name@
}

/// Whether every attribute's name is among `known`.
pub open spec fn names_known(attributes: Seq<XmlAttribute>, known: Seq<Seq<char>>) -> bool {
    forall|i: int| 0 <= i < attributes.len() ==> known.contains(#[trigger] attributes[i].name@)
}

/// The names a stack or layer's properties use.
pub open spec fn property_names() -> Seq<Seq<char>> {
    seq!["name"@, "visibility"@, "opacity"@, "composite-op"@]
}

/// Reads the properties of a stack or layer, with `default_name` when it
/// has no name.
pub open spec fn properties_spec(attributes: Seq<XmlAttribute>, default_name: Seq<char>) -> Result<
    PropertiesView,
    CoreError,
> {
    let name = match find_attribute(attributes, "name"@) {
        Some(i) => attributes[i].value@,
        None => default_name,
    };
    let visibility = match find_attribute(attributes, "visibility"@) {
        Some(i) => attributes[i].value@,
        None => "visible"@,
    };
    let opacity = find_attribute(attributes, "opacity"@);
    let blend = ora_blend_of(
        match find_attribute(attributes, "composite-op"@) {
            Some(i) => attributes[i].value@,
            None => "svg:src-over"@,
        },
    );
    if visibility != "visible"@ && visibility != "hidden"@ {
        Err(CoreError::Format(FormatError::Malformed("invalid ORA visibility")))
    } else if opacity matches Some(i) && attributes[i].number == NumberReading::Invalid {
        Err(CoreError::Format(FormatError::Malformed("invalid ORA numeric attribute")))
    } else if opacity matches Some(i) && attributes[i].number == NumberReading::OutOfRange {
        Err(CoreError::Format(FormatError::Malformed("invalid ORA opacity")))
    } else if blend is None {
        Err(CoreError::Format(FormatError::UnsupportedFeature("unknown ORA composite-op")))
    } else {
        Ok(
            (
                name,
                visibility == "visible"@,
                match opacity {
                    Some(i) => Some(attributes[i].value@),
                    None => None,
                },
                blend->0,
            ),
        )
    }
}

/// Whether a root stack's properties are those of the stack a writer adds
/// around the layers: named `root`, visible, fully opaque, normally
/// blended. Such a root does not count as a level of nesting.
pub open spec fn synthetic_root(p: PropertiesView, attributes: Seq<XmlAttribute>) -> bool {
    &&& p.0 == "root"@
    &&& p.1
    &&& match find_attribute(attributes, "opacity"@) {
        Some(i) => attributes[i].number == NumberReading::One,
        None => true,
    }
    &&& p.3 == BlendMode::Normal
}

/// Nesting depth of the innermost open stack's contents, as the hierarchy
/// limit counts it.
pub open spec fn parent_depth(open: Seq<(PropertiesView, bool, bool)>) -> int {
    if open.len() == 0 {
        0
    } else {
        open.len() - 1 + if open[0].2 {
            0int
        } else {
            1int
        }
    }
}

/// The names a layer uses.
pub open spec fn layer_names() -> Seq<Seq<char>> {
    property_names() + seq!["src"@, "x"@, "y"@]
}

/// The names the image root uses.
pub open spec fn image_names() -> Seq<Seq<char>> {
    seq!["w"@, "h"@, "version"@, "name"@]
}

pub open spec fn malformed(m: &'static str) -> CoreError {
    CoreError::Format(FormatError::Malformed(m))
}

pub open spec fn unsupported(m: &'static str) -> CoreError {
    CoreError::Format(FormatError::UnsupportedFeature(m))
}

/// Reading the `image` start tag.
pub open spec fn image_step(s: StackState, attributes: Seq<XmlAttribute>) -> Result<StackState, CoreError> {
    let w = find_attribute(attributes, "w"@);
    let h = find_attribute(attributes, "h"@);
    if s.phase != ImagePhase::NotSeen || s.open.len() > 0 || s.root is Some {
        Err(malformed("invalid ORA image root"))
    } else if repeats_name(attributes) {
        Err(malformed("duplicate ORA XML attribute"))
    } else if w is None {
        Err(malformed("missing ORA width"))
    } else if parse_u32_spec(attributes[w->0].value@) is None {
        Err(malformed("invalid ORA width"))
    } else if h is None {
        Err(malformed("missing ORA height"))
    } else if parse_u32_spec(attributes[h->0].value@) is None {
        Err(malformed("invalid ORA height"))
    } else if !names_known(attributes, image_names()) {
        Err(unsupported("unknown ORA image attribute"))
    } else {
        let width = parse_u32_spec(attributes[w->0].value@)->0;
        let height = parse_u32_spec(attributes[h->0].value@)->0;
        if !valid_dimensions(width, height) {
            Err(CoreError::InvalidDimensions { width, height })
        } else {
            Ok(StackState { phase: ImagePhase::Open, size: Some((width, height)), ..s })
        }
    }
}

/// Reading a `stack` start tag.
pub open spec fn stack_step(s: StackState, attributes: Seq<XmlAttribute>) -> Result<StackState, CoreError> {
    let root = s.open.len() == 0;
    let props = properties_spec(
        attributes,
        if root {
            "root"@
        } else {
            "Group"@
        },
    );
    if s.phase != ImagePhase::Open {
        Err(malformed("ORA stack outside image"))
    } else if root && s.root is Some {
        Err(malformed("multiple ORA root stacks"))
    } else if !root && parent_depth(s.open) > MAX_HIERARCHY_DEPTH {
        Err(CoreError::Format(FormatError::LimitExceeded("ORA hierarchy depth")))
    } else if repeats_name(attributes) {
        Err(malformed("duplicate ORA XML attribute"))
    } else if props is Err {
        Err(props->Err_0)
    } else if !names_known(attributes, property_names()) {
        Err(unsupported("unknown ORA stack attribute"))
    } else {
        let p = props->Ok_0;
        Ok(StackState { open: s.open.push((p, root, root && synthetic_root(p, attributes))), ..s })
    }
}

/// Reading an empty `layer` tag.
pub open spec fn layer_step(s: StackState, attributes: Seq<XmlAttribute>) -> Result<StackState, CoreError> {
    let props = properties_spec(attributes, "Layer"@);
    let src = find_attribute(attributes, "src"@);
    let x = find_attribute(attributes, "x"@);
    let y = find_attribute(attributes, "y"@);
    let xv = match x {
        Some(i) => parse_i32_spec(attributes[i].value@),
        None => Some(0i32),
    };
    let yv = match y {
        Some(i) => parse_i32_spec(attributes[i].value@),
        None => Some(0i32),
    };
    if s.phase != ImagePhase::Open {
        Err(malformed("ORA layer outside image"))
    } else if s.open.len() == 0 {
        Err(malformed("ORA layer outside stack"))
    } else if parent_depth(s.open) > MAX_HIERARCHY_DEPTH {
        Err(CoreError::Format(FormatError::LimitExceeded("ORA hierarchy depth")))
    } else if repeats_name(attributes) {
        Err(malformed("duplicate ORA XML attribute"))
    } else if props is Err {
        Err(props->Err_0)
    } else if src is None {
        Err(malformed("missing ORA layer source"))
    } else if xv is None {
        Err(malformed("invalid ORA layer x"))
    } else if yv is None {
        Err(malformed("invalid ORA layer y"))
    } else if !safe_path_spec(encode_utf8(attributes[src->0].value@)) || !names_known(
        attributes,
        layer_names(),
    ) {
        Err(unsupported("unknown or unsafe ORA layer attribute"))
    } else {
        Ok(
            StackState {
                entries: s.entries.push(
                    (props->Ok_0, Some((attributes[src->0].value@, xv->0, yv->0)), (s.open.len() - 1) as nat),
                ),
                ..s
            },
        )
    }
}

/// Reading a `stack` end tag.
pub open spec fn stack_end_step(s: StackState) -> Result<StackState, CoreError> {
    if s.phase != ImagePhase::Open {
        Err(malformed("ORA stack close outside image"))
    } else if s.open.len() == 0 {
        Err(malformed("unbalanced ORA stack"))
    } else {
        let top = s.open.last();
        let rest = s.open.drop_last();
        if top.1 {
            if rest.len() > 0 || s.root is Some {
                Err(malformed("multiple ORA root stacks"))
            } else {
                Ok(StackState { open: rest, root: Some(top.0), ..s })
            }
        } else if rest.len() == 0 {
            Err(malformed("nested ORA stack without parent"))
        } else {
            Ok(StackState { open: rest, entries: s.entries.push((top.0, None, (rest.len() - 1) as nat)), ..s })
        }
    }
}

/// Reading one event.
pub open spec fn event_step(s: StackState, e: XmlEvent) -> Result<StackState, CoreError> {
    let other = if s.phase == ImagePhase::Closed {
        Err(malformed("content after ORA image root"))
    } else {
        Err(unsupported("unknown ORA XML element"))
    };
    match e {
        XmlEvent::Declaration => if s.phase == ImagePhase::NotSeen {
            Ok(s)
        } else {
            other
        },
        XmlEvent::Start { name, attributes } => if name@ == "image"@ {
            image_step(s, attributes@)
        } else if name@ == "stack"@ {
            stack_step(s, attributes@)
        } else {
            other
        },
        XmlEvent::Empty { name, attributes } => if name@ == "layer"@ {
            layer_step(s, attributes@)
        } else if name@ == "mask"@ {
            Err(unsupported("ORA masks on import"))
        } else {
            other
        },
        XmlEvent::End { name } => if name@ == "stack"@ {
            stack_end_step(s)
        } else if name@ == "image"@ {
            if s.phase != ImagePhase::Open || s.open.len() > 0 || s.root is None {
                Err(malformed("unbalanced ORA image root"))
            } else {
                Ok(StackState { phase: ImagePhase::Closed, ..s })
            }
        } else {
            other
        },
        XmlEvent::Text { blank } => if blank {
            Ok(s)
        } else {
            other
        },
        XmlEvent::DocType => Err(unsupported("ORA DTD/entity content")),
        XmlEvent::Other => other,
    }
}

/// Reading the first `n` events.
pub open spec fn events_read(events: Seq<XmlEvent>, n: int) -> Result<StackState, CoreError>
    decreases n,
{
    if n <= 0 {
        Ok(initial_state())
    } else {
        match events_read(events, n - 1) {
            Err(e) => Err(e),
            Ok(s) => event_step(s, events[n - 1]),
        }
    }
}

/// What a whole event sequence describes: the canvas size, the root
/// stack's properties and the entries.
pub open spec fn stack_spec(events: Seq<XmlEvent>) -> Result<(u32, u32, PropertiesView, Seq<EntryView>), CoreError> {
    match events_read(events, events.len() as int) {
        Err(e) => Err(e),
        Ok(s) => if s.phase != ImagePhase::Closed || s.open.len() > 0 {
            Err(malformed("unclosed ORA image or stack"))
        } else if s.size is None {
            Err(malformed("missing ORA image"))
        } else if s.root is None {
            Err(malformed("missing ORA root stack"))
        } else {
            let (width, height) = s.size->0;
            Ok((width, height, s.root->0, s.entries))
        },
    }
}

proof fn lemma_find_attribute(attributes: Seq<XmlAttribute>, name: Seq<char>)
    ensures
        find_attribute(attributes, name) matches Some(i) ==> 0 <= i < attributes.len() && attributes[i].name@
            == name && forall|k: int| 0 <= k < i ==> (#[trigger] attributes[k]).name@ != name,
        find_attribute(attributes, name) is None ==> forall|k: int|
            0 <= k < attributes.len() ==> (#[trigger] attributes[k]).name@ != name,
    decreases attributes.len(),
{
    if attributes.len() > 0 {
        let prefix = attributes.drop_last();
        lemma_find_attribute(prefix, name);
        assert forall|k: int| 0 <= k < prefix.len() implies prefix[k] == attributes[k] by {}
    }
}

/// Index of the first attribute called `name`.
fn find_attr(attributes: &Vec<XmlAttribute>, name: &str) -> (r: Option<usize>)
    ensures
        match find_attribute(attributes@, name@) {
            Some(i) => r == Some(i as usize),
            None => r is None,
        },
        r matches Some(i) ==> i < attributes@.len() && find_attribute(attributes@, name@) == Some(i as int),
        r is None ==> find_attribute(attributes@, name@) is None,
{
    proof {
        lemma_find_attribute(attributes@, name@);
    }
    let wanted = String::from_str(name);
    let mut i: usize = 0;
    while i < attributes.len()
        invariant
            i <= attributes@.len(),
            wanted@ == name@,
            forall|k: int| 0 <= k < i ==> (#[trigger] attributes@[k]).name@ != name@,
        decreases attributes@.len() - i,
    {
        if attributes[i].name == wanted {
            proof {
                lemma_find_attribute(attributes@, name@);
                if let Some(j) = find_attribute(attributes@, name@) {
                    if j < i {
                        assert(attributes@[j].name@ != name@);
                    }
                }
            }
            return Some(i);
        }
        i = i + 1;
    }
    None
}

/// Whether two attributes share a name.
fn has_repeated_name(attributes: &Vec<XmlAttribute>) -> (r: bool)
    ensures
        r == repeats_name(attributes@),
{
    let n = attributes.len();
    let mut j: usize = 0;
    while j < n
        invariant
            n == attributes@.len(),
            j <= n,
            forall|a: int, b: int|
                0 <= a < b < j ==> (#[trigger] attributes@[a]).name@ != (#[trigger] attributes@[b]).name@,
        decreases n - j,
    {
        let mut i: usize = 0;
        while i < j
            invariant
                n == attributes@.len(),
                i <= j < n,
                forall|a: int| 0 <= a < i ==> (#[trigger] attributes@[a]).name@ != attributes@[j as int].name@,
            decreases j - i,
        {
            if attributes[i].name == attributes[j].name {
                proof {
                    assert(attributes@[i as int].name@ == attributes@[j as int].name@);
                }
                return true;
            }
            i = i + 1;
        }
        j = j + 1;
    }
    false
}

/// The names as strings.
fn names_of(names: &[&str]) -> (r: Vec<String>)
    ensures
        r@.len() == names@.len(),
        forall|i: int| 0 <= i < names@.len() ==> (#[trigger] r@[i])@ == names@[i]@,
{
    let mut r: Vec<String> = Vec::new();
    let mut i: usize = 0;
    while i < names.len()
        invariant
            i <= names@.len(),
            r@.len() == i,
            forall|k: int| 0 <= k < i ==> (#[trigger] r@[k])@ == names@[k]@,
        decreases names@.len() - i,
    {
        r.push(String::from_str(names[i]));
        i = i + 1;
    }
    r
}

/// Whether every attribute's name is among `known`.
fn all_known(attributes: &Vec<XmlAttribute>, known: &Vec<String>, Ghost(spec_known): Ghost<Seq<Seq<char>>>) -> (r: bool)
    requires
        known@.len() == spec_known.len(),
        forall|i: int| 0 <= i < known@.len() ==> (#[trigger] known@[i])@ == spec_known[i],
    ensures
        r == names_known(attributes@, spec_known),
{
    let mut i: usize = 0;
    while i < attributes.len()
        invariant
            i <= attributes@.len(),
            known@.len() == spec_known.len(),
            forall|k: int| 0 <= k < known@.len() ==> (#[trigger] known@[k])@ == spec_known[k],
            forall|k: int| 0 <= k < i ==> spec_known.contains(#[trigger] attributes@[k].name@),
        decreases attributes@.len() - i,
    {
        let mut found = false;
        let mut j: usize = 0;
        while j < known.len()
            invariant
                i < attributes@.len(),
                j <= known@.len(),
                known@.len() == spec_known.len(),
                forall|k: int| 0 <= k < known@.len() ==> (#[trigger] known@[k])@ == spec_known[k],
                found ==> spec_known.contains(attributes@[i as int].name@),
                !found ==> forall|k: int| 0 <= k < j ==> spec_known[k] != attributes@[i as int].name@,
            decreases known@.len() - j,
        {
            if !found && known[j] == attributes[i].name {
                found = true;
                proof {
                    assert(spec_known[j as int] == attributes@[i as int].name@);
                }
            }
            j = j + 1;
        }
        if !found {
            proof {
                assert(!spec_known.contains(attributes@[i as int].name@));
            }
            return false;
        }
        i = i + 1;
    }
    true
}

proof fn lemma_digits_value_grows(s: Seq<char>, k: int)
    requires
        0 <= k <= s.len(),
        all_digits(s),
    ensures
        0 <= digits_value(s.take(k)) <= digits_value(s),
    decreases s.len() - k,
{
    if k < s.len() {
        lemma_digits_value_grows(s, k + 1);
        assert(s.take(k + 1).drop_last() =~= s.take(k));
        assert(s.take(k + 1).last() == s[k]);
        assert('0' <= s[k] <= '9');
    } else {
        assert(s.take(k) =~= s);
        lemma_digits_value_nonneg(s);
    }
}

proof fn lemma_digits_value_nonneg(s: Seq<char>)
    requires
        all_digits(s),
    ensures
        digits_value(s) >= 0,
    decreases s.len(),
{
    if s.len() > 0 {
        assert(all_digits(s.drop_last())) by {
            assert forall|i: int| 0 <= i < s.drop_last().len() implies '0' <= #[trigger] s.drop_last()[i] <= '9' by {
                assert(s.drop_last()[i] == s[i]);
            }
        }
        lemma_digits_value_nonneg(s.drop_last());
        assert('0' <= s[s.len() - 1] <= '9');
    }
}

/// Reads decimal digits `chars[start..]` up to `limit`: `None` when one is
/// not a digit or the value passes `limit`.
fn read_digits(chars: &Vec<char>, start: usize, limit: u64) -> (r: Option<u64>)
    requires
        start <= chars@.len(),
        limit <= 0x1_0000_0000,
    ensures
        ({
            let digits = chars@.skip(start as int);
            match r {
                Some(v) => all_digits(digits) && v == digits_value(digits) && v <= limit,
                None => !all_digits(digits) || digits_value(digits) > limit,
            }
        }),
{
    let ghost digits = chars@.skip(start as int);
    let mut value: u64 = 0;
    let mut i: usize = start;
    while i < chars.len()
        invariant
            start <= i <= chars@.len(),
            limit <= 0x1_0000_0000,
            digits == chars@.skip(start as int),
            all_digits(digits.take(i - start)),
            value == digits_value(digits.take(i - start)),
            value <= limit,
        decreases chars@.len() - i,
    {
        let c = chars[i];
        proof {
            assert(digits[i - start] == c);
        }
        if c < '0' || c > '9' {
            return None;
        }
        let d = (c as u32 - '0' as u32) as u64;
        let next = value * 10 + d;
        proof {
            assert(digits.take(i + 1 - start).drop_last() =~= digits.take(i - start));
            assert(digits.take(i + 1 - start).last() == c);
            assert(all_digits(digits.take(i + 1 - start))) by {
                assert forall|k: int| 0 <= k < digits.take(i + 1 - start).len() implies '0' <= #[trigger] digits.take(
                    i + 1 - start,
                )[k] <= '9' by {
                    if k < i - start {
                        assert(digits.take(i + 1 - start)[k] == digits.take(i - start)[k]);
                    }
                }
            }
        }
        if next > limit {
            proof {
                if all_digits(digits) {
                    lemma_digits_value_grows(digits, i + 1 - start);
                }
            }
            return None;
        }
        value = next;
        i = i + 1;
    }
    proof {
        assert(digits.take(i - start) =~= digits);
    }
    Some(value)
}

/// A `u32` as Rust's `str::parse` reads it.
pub fn parse_u32_text(text: &String) -> (r: Option<u32>)
    ensures
        r == parse_u32_spec(text@),
{
    let chars = chars_of(text.as_str());
    let start: usize = if chars.len() > 0 && chars[0] == '+' {
        1
    } else {
        0
    };
    proof {
        if start == 1 {
            assert(chars@.skip(1) =~= text@.drop_first());
        } else {
            assert(chars@.skip(0) =~= text@);
        }
    }
    if start == chars.len() {
        return None;
    }
    match read_digits(&chars, start, 0xFFFF_FFFF) {
        Some(v) => Some(v as u32),
        None => None,
    }
}

/// An `i32` as Rust's `str::parse` reads it.
pub fn parse_i32_text(text: &String) -> (r: Option<i32>)
    ensures
        r == parse_i32_spec(text@),
{
    let chars = chars_of(text.as_str());
    let negative = chars.len() > 0 && chars[0] == '-';
    let start: usize = if chars.len() > 0 && (chars[0] == '+' || chars[0] == '-') {
        1
    } else {
        0
    };
    proof {
        if start == 1 {
            assert(chars@.skip(1) =~= text@.drop_first());
        } else {
            assert(chars@.skip(0) =~= text@);
        }
    }
    if start == chars.len() {
        return None;
    }
    let limit: u64 = if negative {
        0x8000_0000
    } else {
        0x7FFF_FFFF
    };
    match read_digits(&chars, start, limit) {
        Some(v) => if negative {
            if v == 0x8000_0000 {
                Some(i32::MIN)
            } else {
                Some(-(v as i32))
            }
        } else {
            Some(v as i32)
        },
        None => None,
    }
}

/// Reads the properties of a stack or layer.
fn read_properties(attributes: &Vec<XmlAttribute>, default_name: &str) -> (r: Result<StackProperties, CoreError>)
    ensures
        match properties_spec(attributes@, default_name@) {
            Ok(p) => r matches Ok(q) && properties_view(q) == p,
            Err(e) => r == Err::<StackProperties, CoreError>(e),
        },
{
    let name = match find_attr(attributes, "name") {
        Some(i) => attributes[i].value.clone(),
        None => String::from_str(default_name),
    };
    let visibility = match find_attr(attributes, "visibility") {
        Some(i) => attributes[i].value.clone(),
        None => String::from_str("visible"),
    };
    let visible_text = String::from_str("visible");
    let hidden_text = String::from_str("hidden");
    if !(visibility == visible_text) && !(visibility == hidden_text) {
        return Err(CoreError::Format(FormatError::Malformed("invalid ORA visibility")));
    }
    let visible = visibility == visible_text;
    let opacity_index = find_attr(attributes, "opacity");
    let opacity = match opacity_index {
        Some(i) => {
            match attributes[i].number {
                NumberReading::Invalid => {
                    return Err(CoreError::Format(FormatError::Malformed("invalid ORA numeric attribute")));
                },
                NumberReading::OutOfRange => {
                    return Err(CoreError::Format(FormatError::Malformed("invalid ORA opacity")));
                },
                _ => {},
            }
            Some(attributes[i].value.clone())
        },
        None => None,
    };
    let composite = match find_attr(attributes, "composite-op") {
        Some(i) => Some(&attributes[i].value),
        None => None,
    };
    let blend = match parse_blend(composite) {
        Ok(b) => b,
        Err(_) => return Err(CoreError::Format(FormatError::UnsupportedFeature("unknown ORA composite-op"))),
    };
    Ok(StackProperties { name, visible, opacity, blend })
}

/// An open stack: its properties, whether it is the root, and whether it
/// is a root that adds no nesting.
struct OpenStack {
    properties: StackProperties,
    root: bool,
    synthetic: bool,
}

/// The reading state as it is held while events are read.
struct StackReader {
    phase: ImagePhase,
    size: Option<(u32, u32)>,
    open: Vec<OpenStack>,
    root: Option<StackProperties>,
    entries: Vec<StackEntry>,
}

impl View for StackReader {
    type V = StackState;

    closed spec fn view(&self) -> StackState {
        StackState {
            phase: self.phase,
            size: self.size,
            open: self.open@.map_values(|o: OpenStack| (properties_view(o.properties), o.root, o.synthetic)),
            root: match self.root {
                Some(p) => Some(properties_view(p)),
                None => None,
            },
            entries: self.entries@.map_values(|e: StackEntry| entry_view(e)),
        }
    }
}

impl StackReader {
    /// Nesting depth of the innermost open stack's contents.
    fn parent_depth(&self) -> (d: usize)
        ensures
            d == parent_depth(self@.open),
    {
        if self.open.len() == 0 {
            0
        } else if self.open[0].synthetic {
            self.open.len() - 1
        } else {
            self.open.len()
        }
    }

    fn image_start(&mut self, attributes: &Vec<XmlAttribute>) -> (r: Result<(), CoreError>)
        ensures
            match image_step(old(self)@, attributes@) {
                Ok(s) => r is Ok && final(self)@ == s,
                Err(e) => r == Err::<(), CoreError>(e),
            },
    {
        if self.phase != ImagePhase::NotSeen || self.open.len() > 0 || self.root.is_some() {
            return Err(CoreError::Format(FormatError::Malformed("invalid ORA image root")));
        }
        if has_repeated_name(attributes) {
            return Err(CoreError::Format(FormatError::Malformed("duplicate ORA XML attribute")));
        }
        let width = match find_attr(attributes, "w") {
            None => return Err(CoreError::Format(FormatError::Malformed("missing ORA width"))),
            Some(i) => match parse_u32_text(&attributes[i].value) {
                None => return Err(CoreError::Format(FormatError::Malformed("invalid ORA width"))),
                Some(v) => v,
            },
        };
        let height = match find_attr(attributes, "h") {
            None => return Err(CoreError::Format(FormatError::Malformed("missing ORA height"))),
            Some(i) => match parse_u32_text(&attributes[i].value) {
                None => return Err(CoreError::Format(FormatError::Malformed("invalid ORA height"))),
                Some(v) => v,
            },
        };
        let known = names_of(&["w", "h", "version", "name"]);
        if !all_known(attributes, &known, Ghost(image_names())) {
            return Err(CoreError::Format(FormatError::UnsupportedFeature("unknown ORA image attribute")));
        }
        match pixel_count(width, height) {
            Ok(_) => {},
            Err(_) => return Err(CoreError::InvalidDimensions { width, height }),
        }
        self.phase = ImagePhase::Open;
        self.size = Some((width, height));
        Ok(())
    }
}

impl StackReader {
    fn stack_start(&mut self, attributes: &Vec<XmlAttribute>) -> (r: Result<(), CoreError>)
        ensures
            match stack_step(old(self)@, attributes@) {
                Ok(s) => r is Ok && final(self)@ == s,
                Err(e) => r == Err::<(), CoreError>(e),
            },
    {
        if self.phase != ImagePhase::Open {
            return Err(CoreError::Format(FormatError::Malformed("ORA stack outside image")));
        }
        let root = self.open.len() == 0;
        if root && self.root.is_some() {
            return Err(CoreError::Format(FormatError::Malformed("multiple ORA root stacks")));
        }
        if !root && self.parent_depth() > MAX_HIERARCHY_DEPTH {
            return Err(CoreError::Format(FormatError::LimitExceeded("ORA hierarchy depth")));
        }
        if has_repeated_name(attributes) {
            return Err(CoreError::Format(FormatError::Malformed("duplicate ORA XML attribute")));
        }
        let properties = match read_properties(attributes, if root { "root" } else { "Group" }) {
            Ok(p) => p,
            Err(e) => return Err(e),
        };
        let known = names_of(&["name", "visibility", "opacity", "composite-op"]);
        if !all_known(attributes, &known, Ghost(property_names())) {
            return Err(CoreError::Format(FormatError::UnsupportedFeature("unknown ORA stack attribute")));
        }
        let opaque = match find_attr(attributes, "opacity") {
            Some(i) => matches!(attributes[i].number, NumberReading::One),
            None => true,
        };
        let synthetic = root && properties.name == String::from_str("root") && properties.visible && opaque
            && matches!(properties.blend, BlendMode::Normal);
        let ghost before = self@;
        self.open.push(OpenStack { properties, root, synthetic });
        proof {
            assert(self@.open =~= before.open.push(
                (properties_view(self.open@.last().properties), root, synthetic),
            ));
        }
        Ok(())
    }

    fn layer_empty(&mut self, attributes: &Vec<XmlAttribute>) -> (r: Result<(), CoreError>)
        ensures
            match layer_step(old(self)@, attributes@) {
                Ok(s) => r is Ok && final(self)@ == s,
                Err(e) => r == Err::<(), CoreError>(e),
            },
    {
        if self.phase != ImagePhase::Open {
            return Err(CoreError::Format(FormatError::Malformed("ORA layer outside image")));
        }
        if self.open.len() == 0 {
            return Err(CoreError::Format(FormatError::Malformed("ORA layer outside stack")));
        }
        if self.parent_depth() > MAX_HIERARCHY_DEPTH {
            return Err(CoreError::Format(FormatError::LimitExceeded("ORA hierarchy depth")));
        }
        if has_repeated_name(attributes) {
            return Err(CoreError::Format(FormatError::Malformed("duplicate ORA XML attribute")));
        }
        let properties = match read_properties(attributes, "Layer") {
            Ok(p) => p,
            Err(e) => return Err(e),
        };
        let src = match find_attr(attributes, "src") {
            Some(i) => attributes[i].value.clone(),
            None => return Err(CoreError::Format(FormatError::Malformed("missing ORA layer source"))),
        };
        let x = match find_attr(attributes, "x") {
            Some(i) => match parse_i32_text(&attributes[i].value) {
                Some(v) => v,
                None => return Err(CoreError::Format(FormatError::Malformed("invalid ORA layer x"))),
            },
            None => 0,
        };
        let y = match find_attr(attributes, "y") {
            Some(i) => match parse_i32_text(&attributes[i].value) {
                Some(v) => v,
                None => return Err(CoreError::Format(FormatError::Malformed("invalid ORA layer y"))),
            },
            None => 0,
        };
        let known = names_of(&["name", "visibility", "opacity", "composite-op", "src", "x", "y"]);
        proof {
            assert(layer_names() =~= seq!["name"@, "visibility"@, "opacity"@, "composite-op"@, "src"@, "x"@, "y"@]);
        }
        if !safe_path(src.as_str().as_bytes()) || !all_known(attributes, &known, Ghost(layer_names())) {
            return Err(
                CoreError::Format(FormatError::UnsupportedFeature("unknown or unsafe ORA layer attribute")),
            );
        }
        let depth = self.open.len() - 1;
        let ghost before = self@;
        self.entries.push(StackEntry { properties, layer: Some(LayerSource { src, x, y }), depth });
        proof {
            assert(self@.entries =~= before.entries.push(entry_view(self.entries@.last())));
        }
        Ok(())
    }

    fn stack_end(&mut self) -> (r: Result<(), CoreError>)
        ensures
            match stack_end_step(old(self)@) {
                Ok(s) => r is Ok && final(self)@ == s,
                Err(e) => r == Err::<(), CoreError>(e),
            },
    {
        if self.phase != ImagePhase::Open {
            return Err(CoreError::Format(FormatError::Malformed("ORA stack close outside image")));
        }
        let ghost before = self@;
        let top = match self.open.pop() {
            Some(t) => t,
            None => return Err(CoreError::Format(FormatError::Malformed("unbalanced ORA stack"))),
        };
        proof {
            assert(self@.open =~= before.open.drop_last());
        }
        if top.root {
            if self.open.len() > 0 || self.root.is_some() {
                return Err(CoreError::Format(FormatError::Malformed("multiple ORA root stacks")));
            }
            self.root = Some(top.properties);
            Ok(())
        } else {
            if self.open.len() == 0 {
                return Err(CoreError::Format(FormatError::Malformed("nested ORA stack without parent")));
            }
            let depth = self.open.len() - 1;
            let ghost mid = self@;
            self.entries.push(StackEntry { properties: top.properties, layer: None, depth });
            proof {
                assert(self@.entries =~= mid.entries.push(entry_view(self.entries@.last())));
            }
            Ok(())
        }
    }

    fn step(&mut self, event: &XmlEvent) -> (r: Result<(), CoreError>)
        ensures
            match event_step(old(self)@, *event) {
                Ok(s) => r is Ok && final(self)@ == s,
                Err(e) => r == Err::<(), CoreError>(e),
            },
    {
        let other = if self.phase == ImagePhase::Closed {
            Err(CoreError::Format(FormatError::Malformed("content after ORA image root")))
        } else {
            Err(CoreError::Format(FormatError::UnsupportedFeature("unknown ORA XML element")))
        };
        match event {
            XmlEvent::Declaration => if self.phase == ImagePhase::NotSeen {
                Ok(())
            } else {
                other
            },
            XmlEvent::Start { name, attributes } => if *name == String::from_str("image") {
                self.image_start(attributes)
            } else if *name == String::from_str("stack") {
                self.stack_start(attributes)
            } else {
                other
            },
            XmlEvent::Empty { name, attributes } => if *name == String::from_str("layer") {
                self.layer_empty(attributes)
            } else if *name == String::from_str("mask") {
                Err(CoreError::Format(FormatError::UnsupportedFeature("ORA masks on import")))
            } else {
                other
            },
            XmlEvent::End { name } => if *name == String::from_str("stack") {
                self.stack_end()
            } else if *name == String::from_str("image") {
                if self.phase != ImagePhase::Open || self.open.len() > 0 || self.root.is_none() {
                    Err(CoreError::Format(FormatError::Malformed("unbalanced ORA image root")))
                } else {
                    self.phase = ImagePhase::Closed;
                    Ok(())
                }
            } else {
                other
            },
            XmlEvent::Text { blank } => if *blank {
                Ok(())
            } else {
                other
            },
            XmlEvent::DocType => Err(CoreError::Format(FormatError::UnsupportedFeature("ORA DTD/entity content"))),
            XmlEvent::Other => other,
        }
    }
}

/// Reads the structure of an ORA `stack.xml` from its events: one `image`
/// root with a width and height, holding exactly one root `stack`, nested
/// `stack` groups and `layer` elements with a safe source path and an
/// optional offset. Unknown elements and attributes, masks, document type
/// declarations, misplaced or unbalanced tags and nesting past the depth
/// limit are refused with the first fault in document order.
pub fn parse_stack_events(events: &[XmlEvent]) -> (r: Result<StackImage, CoreError>)
    ensures
        match stack_spec(events@) {
            Ok((width, height, root, entries)) => r matches Ok(image) && image.width == width && image.height
                == height && properties_view(image.root) == root && image.entries@.map_values(
                |e: StackEntry| entry_view(e),
            ) == entries,
            Err(e) => r matches Err(x) && x == e,
        },
{
    let mut reader = StackReader {
        phase: ImagePhase::NotSeen,
        size: None,
        open: Vec::new(),
        root: None,
        entries: Vec::new(),
    };
    proof {
        assert(reader@.open =~= initial_state().open);
        assert(reader@.entries =~= initial_state().entries);
    }
    let mut i: usize = 0;
    while i < events.len()
        invariant
            i <= events@.len(),
            events_read(events@, i as int) == Ok::<StackState, CoreError>(reader@),
        decreases events@.len() - i,
    {
        match reader.step(&events[i]) {
            Ok(()) => {},
            Err(e) => {
                proof {
                    lemma_events_read_sticks(events@, i + 1, events@.len() as int);
                }
                return Err(e);
            },
        }
        i = i + 1;
    }
    if reader.phase != ImagePhase::Closed || reader.open.len() > 0 {
        return Err(CoreError::Format(FormatError::Malformed("unclosed ORA image or stack")));
    }
    let (width, height) = match reader.size {
        Some(size) => size,
        None => return Err(CoreError::Format(FormatError::Malformed("missing ORA image"))),
    };
    let root = match reader.root {
        Some(p) => p,
        None => return Err(CoreError::Format(FormatError::Malformed("missing ORA root stack"))),
    };
    Ok(StackImage { width, height, root, entries: reader.entries })
}

/// Checks events read so far, before the document has ended: the first
/// fault among them, if any.
pub fn check_stack_events(events: &[XmlEvent]) -> (r: Result<(), CoreError>)
    ensures
        match events_read(events@, events@.len() as int) {
            Ok(_) => r is Ok,
            Err(e) => r matches Err(x) && x == e,
        },
{
    let mut reader = StackReader {
        phase: ImagePhase::NotSeen,
        size: None,
        open: Vec::new(),
        root: None,
        entries: Vec::new(),
    };
    proof {
        assert(reader@.open =~= initial_state().open);
        assert(reader@.entries =~= initial_state().entries);
    }
    let mut i: usize = 0;
    while i < events.len()
        invariant
            i <= events@.len(),
            events_read(events@, i as int) == Ok::<StackState, CoreError>(reader@),
        decreases events@.len() - i,
    {
        match reader.step(&events[i]) {
            Ok(()) => {},
            Err(e) => {
                proof {
                    lemma_events_read_sticks(events@, i + 1, events@.len() as int);
                }
                return Err(e);
            },
        }
        i = i + 1;
    }
    Ok(())
}

proof fn lemma_events_read_sticks(events: Seq<XmlEvent>, m: int, n: int)
    requires
        0 <= m <= n,
        events_read(events, m) is Err,
    ensures
        events_read(events, n) == events_read(events, m),
    decreases n - m,
{
    if m < n {
        lemma_events_read_sticks(events, m, n - 1);
    }
}

} // verus!
