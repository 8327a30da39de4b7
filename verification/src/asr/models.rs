//! Which recognizer model a directory holds, by the names of its files.
use vstd::prelude::*;

use crate::text;

verus! {

broadcast use vstd::seq::group_seq_axioms;

// ---------------------------------------------------------------------------
// Families of models that come in a single file
// ---------------------------------------------------------------------------

/// A family of models that come in a single file.
#[derive(Clone, Copy, Debug, PartialEq, Eq, Structural)]
pub enum ForcedFamily {
    Paraformer,
    SenseVoice,
    NemoCtc,
    ZipformerCtc,
    Tdnn,
}

/// The family that a hint names, once the hint is in lower case.
pub open spec fn family_named(lowered: Seq<char>) -> Option<ForcedFamily> {
    let name = text::replaced(lowered, seq!['-'], seq!['_']);
    if name == "paraformer"@ {
        Some(ForcedFamily::Paraformer)
    } else if name == "sense_voice"@ || name == "sensevoice"@ {
        Some(ForcedFamily::SenseVoice)
    } else if name == "nemo_ctc"@ || name == "nemoctc"@ {
        Some(ForcedFamily::NemoCtc)
    } else if name == "zipformer_ctc"@ || name == "zipformerctc"@ {
        Some(ForcedFamily::ZipformerCtc)
    } else if name == "tdnn"@ {
        Some(ForcedFamily::Tdnn)
    } else {
        None
    }
}

/// The family that the name of a directory suggests, once the name is in lower case.
pub open spec fn family_suggested(lowered: Seq<char>) -> Option<ForcedFamily> {
    if text::contains(lowered, "sense-voice"@) || text::contains(lowered, "sense_voice"@)
        || text::contains(lowered, "sensevoice"@) {
        Some(ForcedFamily::SenseVoice)
    } else if text::contains(lowered, "paraformer"@) {
        Some(ForcedFamily::Paraformer)
    } else if text::contains(lowered, "zipformer"@) && text::contains(lowered, "ctc"@) {
        Some(ForcedFamily::ZipformerCtc)
    } else if text::contains(lowered, "nemo"@) || text::contains(lowered, "giga-am"@)
        || text::contains(lowered, "gigaam"@) {
        Some(ForcedFamily::NemoCtc)
    } else if text::contains(lowered, "tdnn"@) {
        Some(ForcedFamily::Tdnn)
    } else {
        None
    }
}

impl ForcedFamily {
    /// The family that a hint in lower case names.
    pub fn from_lowered_hint(lowered: &str) -> (r: Option<Self>)
        ensures
            r == family_named(lowered@),
    {
        proof {
            reveal_strlit("-");
            reveal_strlit("_");
            assert("-"@ =~= seq!['-']);
            assert("_"@ =~= seq!['_']);
        }
        let name = text::replace(lowered, "-", "_");
        let name = name.as_str();
        if text::same(name, "paraformer") {
            Some(ForcedFamily::Paraformer)
        } else if text::same(name, "sense_voice") || text::same(name, "sensevoice") {
            Some(ForcedFamily::SenseVoice)
        } else if text::same(name, "nemo_ctc") || text::same(name, "nemoctc") {
            Some(ForcedFamily::NemoCtc)
        } else if text::same(name, "zipformer_ctc") || text::same(name, "zipformerctc") {
            Some(ForcedFamily::ZipformerCtc)
        } else if text::same(name, "tdnn") {
            Some(ForcedFamily::Tdnn)
        } else {
            None
        }
    }

    /// The family that a hint names.
    pub fn from_hint(raw: &str) -> (r: Option<Self>)
        ensures
            r == family_named(text::unicode_lowercase(raw@)),
    {
        let lowered = text::to_lowercase(raw);
        Self::from_lowered_hint(lowered.as_str())
    }

    /// The family that the name of a directory, in lower case, suggests.
    pub fn guess_from_lowered_name(lowered: &str) -> (r: Option<Self>)
        ensures
            r == family_suggested(lowered@),
    {
        if text::str_contains(lowered, "sense-voice") || text::str_contains(lowered, "sense_voice")
            || text::str_contains(lowered, "sensevoice") {
            Some(ForcedFamily::SenseVoice)
        } else if text::str_contains(lowered, "paraformer") {
            Some(ForcedFamily::Paraformer)
        } else if text::str_contains(lowered, "zipformer") && text::str_contains(lowered, "ctc") {
            Some(ForcedFamily::ZipformerCtc)
        } else if text::str_contains(lowered, "nemo") || text::str_contains(lowered, "giga-am")
            || text::str_contains(lowered, "gigaam") {
            Some(ForcedFamily::NemoCtc)
        } else if text::str_contains(lowered, "tdnn") {
            Some(ForcedFamily::Tdnn)
        } else {
            None
        }
    }

    /// The family that the name of a directory suggests.
    pub fn guess_from_dir_name(name: &str) -> (r: Option<Self>)
        ensures
            r == family_suggested(text::unicode_lowercase(name@)),
    {
        let lowered = text::to_lowercase(name);
        Self::guess_from_lowered_name(lowered.as_str())
    }

    /// The name of the family.
    pub open spec fn label(self) -> Seq<char> {
        match self {
            ForcedFamily::Paraformer => "paraformer"@,
            ForcedFamily::SenseVoice => "sense_voice"@,
            ForcedFamily::NemoCtc => "nemo_ctc"@,
            ForcedFamily::ZipformerCtc => "zipformer_ctc"@,
            ForcedFamily::Tdnn => "tdnn"@,
        }
    }

    /// The name of the family.
    pub fn name(self) -> (r: &'static str)
        ensures
            r@ == self.label(),
    {
        match self {
            ForcedFamily::Paraformer => "paraformer",
            ForcedFamily::SenseVoice => "sense_voice",
            ForcedFamily::NemoCtc => "nemo_ctc",
            ForcedFamily::ZipformerCtc => "zipformer_ctc",
            ForcedFamily::Tdnn => "tdnn",
        }
    }
}

// ---------------------------------------------------------------------------
// Finding a file by its name
// ---------------------------------------------------------------------------

/// What the name of a file has to look like.
#[derive(Clone, Copy)]
pub enum FilePattern {
    /// An ONNX file whose name begins with the text.
    Prefix(&'static str),
    /// An ONNX file whose name begins with the text, or has it behind a hyphen or an underscore.
    Hint(&'static str),
    /// A text file of tokens.
    Tokens,
}

/// The name fits the pattern.
pub open spec fn fits(pattern: FilePattern, name: Seq<char>) -> bool {
    match pattern {
        FilePattern::Prefix(prefix) => text::starts_with(name, prefix@) && text::ends_with(
            name,
            ".onnx"@,
        ),
        FilePattern::Hint(hint) => text::ends_with(name, ".onnx"@) && (text::starts_with(
            name,
            hint@,
        ) || text::contains(name, "-"@ + hint@) || text::contains(name, "_"@ + hint@)),
        FilePattern::Tokens => text::ends_with(name, ".txt"@) && (name == "tokens.txt"@
            || text::contains(name, "-tokens"@) || text::contains(name, "_tokens"@)
            || text::contains(name, ".tokens"@)),
    }
}

/// `a` stands before `b` in the order of characters.
pub open spec fn precedes(a: Seq<char>, b: Seq<char>) -> bool
    decreases a.len(),
{
    if b.len() == 0 {
        false
    } else if a.len() == 0 {
        true
    } else if a[0] != b[0] {
        a[0] < b[0]
    } else {
        precedes(a.drop_first(), b.drop_first())
    }
}

/// `a` is preferred over `b`: eight-bit models go before others, and then names go in order.
/// Token files go in order alone.
pub open spec fn preferred(pattern: FilePattern, a: Seq<char>, b: Seq<char>) -> bool {
    let a_int8 = text::contains(a, "int8"@);
    let b_int8 = text::contains(b, "int8"@);
    if pattern is Tokens || a_int8 == b_int8 {
        precedes(a, b)
    } else {
        a_int8
    }
}

/// The preferred one of the names that fit the pattern.
pub open spec fn found(names: Seq<Seq<char>>, pattern: FilePattern) -> Option<Seq<char>>
    decreases names.len(),
{
    if names.len() == 0 {
        None
    } else {
        let earlier = found(names.drop_last(), pattern);
        let name = names.last();
        if !fits(pattern, name) {
            earlier
        } else {
            match earlier {
                Some(best) => if preferred(pattern, name, best) {
                    Some(name)
                } else {
                    earlier
                },
                None => Some(name),
            }
        }
    }
}

fn name_fits(pattern: FilePattern, name: &str) -> (r: bool)
    ensures
        r == fits(pattern, name@),
{
    match pattern {
        FilePattern::Prefix(prefix) => text::str_starts_with(name, prefix) && text::str_ends_with(
            name,
            ".onnx",
        ),
        FilePattern::Hint(hint) => {
            let mut hyphened = String::new();
            hyphened.append("-");
            hyphened.append(hint);
            let mut underscored = String::new();
            underscored.append("_");
            underscored.append(hint);
            assert(hyphened@ =~= "-"@ + hint@);
            assert(underscored@ =~= "_"@ + hint@);
            text::str_ends_with(name, ".onnx") && (text::str_starts_with(name, hint)
                || text::str_contains(name, hyphened.as_str()) || text::str_contains(
                name,
                underscored.as_str(),
            ))
        },
        FilePattern::Tokens => text::str_ends_with(name, ".txt") && (text::same(name, "tokens.txt")
            || text::str_contains(name, "-tokens") || text::str_contains(name, "_tokens")
            || text::str_contains(name, ".tokens")),
    }
}

fn name_precedes(a: &str, b: &str) -> (r: bool)
    ensures
        r == precedes(a@, b@),
{
    let x = text::chars_of(a);
    let y = text::chars_of(b);
    let mut i: usize = 0;
    assert(a@.skip(0) =~= a@ && b@.skip(0) =~= b@);
    while i < x.len() && i < y.len()
        invariant
            x@ == a@,
            y@ == b@,
            i <= x@.len(),
            i <= y@.len(),
            precedes(a@, b@) == precedes(a@.skip(i as int), b@.skip(i as int)),
        decreases x@.len() - i,
    {
        if x[i] != y[i] {
            return x[i] < y[i];
        }
        assert(a@.skip(i as int).drop_first() =~= a@.skip(i + 1));
        assert(b@.skip(i as int).drop_first() =~= b@.skip(i + 1));
        i += 1;
    }
    i < y.len()
}

fn name_preferred(pattern: FilePattern, a: &str, b: &str) -> (r: bool)
    ensures
        r == preferred(pattern, a@, b@),
{
    let a_int8 = text::str_contains(a, "int8");
    let b_int8 = text::str_contains(b, "int8");
    let in_order = match pattern {
        FilePattern::Tokens => true,
        _ => a_int8 == b_int8,
    };
    if in_order {
        name_precedes(a, b)
    } else {
        a_int8
    }
}

/// The preferred one of the files that fit the pattern.
pub fn find_file(names: &[String], pattern: FilePattern) -> (r: Option<String>)
    ensures
        match r {
            Some(name) => found(text::texts(names@), pattern) == Some(name@),
            None => found(text::texts(names@), pattern) is None,
        },
{
    let mut best: Option<usize> = None;
    let ghost all = text::texts(names@);
    assert(all.take(0) =~= Seq::<Seq<char>>::empty());
    for i in 0..names.len()
        invariant
            all == text::texts(names@),
            match best {
                Some(at) => at < i && found(all.take(i as int), pattern) == Some(all[at as int]),
                None => found(all.take(i as int), pattern) is None,
            },
    {
        assert(all.take(i + 1).drop_last() =~= all.take(i as int));
        assert(all[i as int] == names@[i as int]@);
        if name_fits(pattern, names[i].as_str()) {
            let better = match best {
                Some(at) => name_preferred(pattern, names[i].as_str(), names[at].as_str()),
                None => true,
            };
            if better {
                best = Some(i);
            }
        }
    }
    assert(all.take(all.len() as int) =~= all);
    match best {
        Some(at) => Some(names[at].clone()),
        None => None,
    }
}

fn has_file(names: &[String], wanted: &str) -> (r: bool)
    ensures
        r == text::texts(names@).contains(wanted@),
{
    let ghost all = text::texts(names@);
    for i in 0..names.len()
        invariant
            all == text::texts(names@),
            forall|j: int| 0 <= j < i ==> all[j] != wanted@,
    {
        if text::same(names[i].as_str(), wanted) {
            assert(all[i as int] == wanted@);
            return true;
        }
    }
    false
}

proof fn lemma_precedes_total(a: Seq<char>, b: Seq<char>)
    ensures
        precedes(a, b) || precedes(b, a) || a == b,
        !(precedes(a, b) && precedes(b, a)),
        a == b ==> !precedes(a, b),
    decreases a.len(),
{
    if a.len() > 0 && b.len() > 0 {
        lemma_precedes_total(a.drop_first(), b.drop_first());
        if a[0] == b[0] && a.drop_first() == b.drop_first() {
            assert(a =~= seq![a[0]] + a.drop_first());
            assert(b =~= seq![b[0]] + b.drop_first());
        }
    } else if a.len() == 0 && b.len() == 0 {
        assert(a =~= b);
    }
}

proof fn lemma_precedes_transitive(a: Seq<char>, b: Seq<char>, c: Seq<char>)
    requires
        precedes(a, b),
        precedes(b, c),
    ensures
        precedes(a, c),
    decreases a.len(),
{
    if a.len() > 0 && b.len() > 0 && c.len() > 0 && a[0] == b[0] && b[0] == c[0] {
        lemma_precedes_transitive(a.drop_first(), b.drop_first(), c.drop_first());
    }
}

/// The file that is found is there and fits, and every other file that fits is less preferred. A
/// file is found wherever one fits.
pub proof fn law_preferred_file_is_found(names: Seq<Seq<char>>, pattern: FilePattern)
    ensures
        match found(names, pattern) {
            Some(best) => names.contains(best) && fits(pattern, best) && forall|i: int|
                0 <= i < names.len() && fits(pattern, #[trigger] names[i]) && names[i] != best
                    ==> preferred(pattern, best, names[i]) && !preferred(pattern, names[i], best),
            None => forall|i: int| 0 <= i < names.len() ==> !fits(pattern, #[trigger] names[i]),
        },
    decreases names.len(),
{
    if names.len() > 0 {
        let shorter = names.drop_last();
        let name = names.last();
        law_preferred_file_is_found(shorter, pattern);
        assert forall|i: int| 0 <= i < shorter.len() implies shorter[i] == #[trigger] names[i] by {}
        match found(shorter, pattern) {
            Some(earlier) => {
                let k = choose|k: int| 0 <= k < shorter.len() && shorter[k] == earlier;
                assert(names[k] == earlier);
                lemma_precedes_total(name, earlier);
                assert(names[names.len() - 1] == name);
                if fits(pattern, name) && preferred(pattern, name, earlier) {
                    assert forall|i: int|
                        0 <= i < names.len() && fits(pattern, #[trigger] names[i]) && names[i]
                            != name implies preferred(pattern, name, names[i]) && !preferred(
                        pattern,
                        names[i],
                        name,
                    ) by {
                        assert(shorter[i] == names[i]);
                        lemma_precedes_total(name, names[i]);
                        if names[i] != earlier && precedes(name, earlier) && precedes(
                            earlier,
                            names[i],
                        ) {
                            lemma_precedes_transitive(name, earlier, names[i]);
                        }
                    }
                } else {
                    assert forall|i: int|
                        0 <= i < names.len() && fits(pattern, #[trigger] names[i]) && names[i]
                            != earlier implies preferred(pattern, earlier, names[i]) && !preferred(
                        pattern,
                        names[i],
                        earlier,
                    ) by {
                        if i < shorter.len() {
                            assert(shorter[i] == names[i]);
                        }
                    }
                }
            },
            None => {
                assert forall|i: int| 0 <= i < shorter.len() implies !fits(
                    pattern,
                    #[trigger] names[i],
                ) by {
                    assert(!fits(pattern, shorter[i]));
                }
                assert(names[names.len() - 1] == name);
            },
        }
    }
}

// ---------------------------------------------------------------------------
// Layouts
// ---------------------------------------------------------------------------

/// A directory with model files: its own name, the names of the files in it, and whether it has a
/// directory `tokenizer`.
pub struct ModelDir {
    pub name: String,
    pub files: Vec<String>,
    pub has_tokenizer_dir: bool,
}

/// A model that a directory holds, by the names of its files.
pub enum ModelLayout {
    Transducer { encoder: String, decoder: String, joiner: String, tokens: String },
    MoonshineSplit { encoder: String, uncached: String, cached: String, tokens: String },
    MoonshineMerged { encoder: String, merged: String, tokens: String },
    Qwen3Asr { encoder: String, decoder: String },
    Whisper { encoder: String, decoder: String, tokens: String },
    SingleFile { family: ForcedFamily, model: String, tokens: String },
}

/// What a `ModelLayout` holds.
pub ghost enum LayoutView {
    Transducer { encoder: Seq<char>, decoder: Seq<char>, joiner: Seq<char>, tokens: Seq<char> },
    MoonshineSplit {
        encoder: Seq<char>,
        uncached: Seq<char>,
        cached: Seq<char>,
        tokens: Seq<char>,
    },
    MoonshineMerged { encoder: Seq<char>, merged: Seq<char>, tokens: Seq<char> },
    Qwen3Asr { encoder: Seq<char>, decoder: Seq<char> },
    Whisper { encoder: Seq<char>, decoder: Seq<char>, tokens: Seq<char> },
    SingleFile { family: ForcedFamily, model: Seq<char>, tokens: Seq<char> },
}

impl View for ModelLayout {
    type V = LayoutView;

    open spec fn view(&self) -> LayoutView {
        match self {
            ModelLayout::Transducer { encoder, decoder, joiner, tokens } => LayoutView::Transducer {
                encoder: encoder@,
                decoder: decoder@,
                joiner: joiner@,
                tokens: tokens@,
            },
            ModelLayout::MoonshineSplit { encoder, uncached, cached, tokens } => {
                LayoutView::MoonshineSplit {
                    encoder: encoder@,
                    uncached: uncached@,
                    cached: cached@,
                    tokens: tokens@,
                }
            },
            ModelLayout::MoonshineMerged { encoder, merged, tokens } => {
                LayoutView::MoonshineMerged {
                    encoder: encoder@,
                    merged: merged@,
                    tokens: tokens@,
                }
            },
            ModelLayout::Qwen3Asr { encoder, decoder } => LayoutView::Qwen3Asr {
                encoder: encoder@,
                decoder: decoder@,
            },
            ModelLayout::Whisper { encoder, decoder, tokens } => LayoutView::Whisper {
                encoder: encoder@,
                decoder: decoder@,
                tokens: tokens@,
            },
            ModelLayout::SingleFile { family, model, tokens } => LayoutView::SingleFile {
                family: *family,
                model: model@,
                tokens: tokens@,
            },
        }
    }
}

/// Why no model was recognized.
#[derive(Clone, Copy, Debug, PartialEq, Eq, Structural)]
pub enum ModelError {
    /// The files fit no layout.
    UnknownLayout,
    /// There is a single model file, and nothing tells its family.
    UnknownFamily,
}

/// The tokens file: `tokens.txt`, or the first that looks like one.
pub open spec fn tokens_file(names: Seq<Seq<char>>) -> Option<Seq<char>> {
    if names.contains("tokens.txt"@) {
        Some("tokens.txt"@)
    } else {
        found(names, FilePattern::Tokens)
    }
}

/// A transducer: encoder, decoder, joiner and tokens.
pub open spec fn transducer(names: Seq<Seq<char>>) -> Option<LayoutView> {
    match (
        found(names, FilePattern::Prefix("encoder")),
        found(names, FilePattern::Prefix("decoder")),
        found(names, FilePattern::Prefix("joiner")),
        tokens_file(names),
    ) {
        (Some(encoder), Some(decoder), Some(joiner), Some(tokens)) => Some(
            LayoutView::Transducer { encoder, decoder, joiner, tokens },
        ),
        _ => None,
    }
}

/// Moonshine, with split decoders or a merged one.
pub open spec fn moonshine(names: Seq<Seq<char>>) -> Option<LayoutView> {
    match (found(names, FilePattern::Prefix("encode")), tokens_file(names)) {
        (Some(encoder), Some(tokens)) => match (
            names.contains("preprocess.onnx"@),
            found(names, FilePattern::Prefix("uncached_decode")),
            found(names, FilePattern::Prefix("cached_decode")),
        ) {
            (true, Some(uncached), Some(cached)) => Some(
                LayoutView::MoonshineSplit { encoder, uncached, cached, tokens },
            ),
            _ => match found(names, FilePattern::Prefix("merged_decod")) {
                Some(merged) => Some(LayoutView::MoonshineMerged { encoder, merged, tokens }),
                None => None,
            },
        },
        _ => None,
    }
}

/// Qwen3: a convolution front end, encoder, decoder and a tokenizer directory.
pub open spec fn qwen3_asr(names: Seq<Seq<char>>, has_tokenizer_dir: bool) -> Option<LayoutView> {
    match (
        found(names, FilePattern::Hint("encoder")),
        found(names, FilePattern::Hint("decoder")),
    ) {
        (Some(encoder), Some(decoder)) => if names.contains("conv_frontend.onnx"@)
            && has_tokenizer_dir {
            Some(LayoutView::Qwen3Asr { encoder, decoder })
        } else {
            None
        },
        _ => None,
    }
}

/// The first that is there.
pub open spec fn or_else(
    first: Option<Seq<char>>,
    second: Option<Seq<char>>,
) -> Option<Seq<char>> {
    if first is Some {
        first
    } else {
        second
    }
}

/// Whisper: encoder, decoder and tokens, in one of its ways of naming.
pub open spec fn whisper(names: Seq<Seq<char>>) -> Option<LayoutView> {
    let large = found(names, FilePattern::Hint("large"));
    match (
        or_else(found(names, FilePattern::Hint("encoder")), large),
        or_else(found(names, FilePattern::Hint("decoder")), large),
        tokens_file(names),
    ) {
        (Some(encoder), Some(decoder), Some(tokens)) => Some(
            LayoutView::Whisper { encoder, decoder, tokens },
        ),
        _ => None,
    }
}

/// The single model file, where there is one beside `tokens.txt`.
pub open spec fn single_file(names: Seq<Seq<char>>) -> Option<Seq<char>> {
    if !names.contains("tokens.txt"@) {
        None
    } else if names.contains("model.onnx"@) {
        Some("model.onnx"@)
    } else if names.contains("model.int8.onnx"@) {
        Some("model.int8.onnx"@)
    } else {
        None
    }
}

/// The model that a directory holds, when the hint names the family `hinted` and the name of the
/// directory suggests the family `suggested`. The most specific layouts are tried first.
pub open spec fn layout_of(
    names: Seq<Seq<char>>,
    has_tokenizer_dir: bool,
    hinted: Option<ForcedFamily>,
    suggested: Option<ForcedFamily>,
) -> Result<LayoutView, ModelError> {
    if let Some(layout) = transducer(names) {
        Ok(layout)
    } else if let Some(layout) = moonshine(names) {
        Ok(layout)
    } else if let Some(layout) = qwen3_asr(names, has_tokenizer_dir) {
        Ok(layout)
    } else if let Some(layout) = whisper(names) {
        Ok(layout)
    } else if let Some(model) = single_file(names) {
        match (hinted, suggested) {
            (Some(family), _) => Ok(
                LayoutView::SingleFile { family, model, tokens: "tokens.txt"@ },
            ),
            (None, Some(family)) => Ok(
                LayoutView::SingleFile { family, model, tokens: "tokens.txt"@ },
            ),
            (None, None) => Err(ModelError::UnknownFamily),
        }
    } else {
        Err(ModelError::UnknownLayout)
    }
}

fn find_tokens_file(names: &[String]) -> (r: Option<String>)
    ensures
        match r {
            Some(name) => tokens_file(text::texts(names@)) == Some(name@),
            None => tokens_file(text::texts(names@)) is None,
        },
{
    if has_file(names, "tokens.txt") {
        return Some("tokens.txt".to_string());
    }
    find_file(names, FilePattern::Tokens)
}

/// What an optional layout holds.
pub open spec fn layout_view(layout: Option<ModelLayout>) -> Option<LayoutView> {
    match layout {
        Some(layout) => Some(layout@),
        None => None,
    }
}

fn try_transducer(names: &[String]) -> (r: Option<ModelLayout>)
    ensures
        layout_view(r) == transducer(text::texts(names@)),
{
    match (
        find_file(names, FilePattern::Prefix("encoder")),
        find_file(names, FilePattern::Prefix("decoder")),
        find_file(names, FilePattern::Prefix("joiner")),
        find_tokens_file(names),
    ) {
        (Some(encoder), Some(decoder), Some(joiner), Some(tokens)) => Some(
            ModelLayout::Transducer { encoder, decoder, joiner, tokens },
        ),
        _ => None,
    }
}

fn try_moonshine(names: &[String]) -> (r: Option<ModelLayout>)
    ensures
        layout_view(r) == moonshine(text::texts(names@)),
{
    match (find_file(names, FilePattern::Prefix("encode")), find_tokens_file(names)) {
        (Some(encoder), Some(tokens)) => {
            match (
                has_file(names, "preprocess.onnx"),
                find_file(names, FilePattern::Prefix("uncached_decode")),
                find_file(names, FilePattern::Prefix("cached_decode")),
            ) {
                (true, Some(uncached), Some(cached)) => Some(
                    ModelLayout::MoonshineSplit { encoder, uncached, cached, tokens },
                ),
                _ => match find_file(names, FilePattern::Prefix("merged_decod")) {
                    Some(merged) => Some(
                        ModelLayout::MoonshineMerged { encoder, merged, tokens },
                    ),
                    None => None,
                },
            }
        },
        _ => None,
    }
}

fn try_qwen3_asr(names: &[String], has_tokenizer_dir: bool) -> (r: Option<ModelLayout>)
    ensures
        layout_view(r) == qwen3_asr(text::texts(names@), has_tokenizer_dir),
{
    if !has_file(names, "conv_frontend.onnx") || !has_tokenizer_dir {
        return None;
    }
    match (
        find_file(names, FilePattern::Hint("encoder")),
        find_file(names, FilePattern::Hint("decoder")),
    ) {
        (Some(encoder), Some(decoder)) => Some(ModelLayout::Qwen3Asr { encoder, decoder }),
        _ => None,
    }
}

fn find_by_hint_or_large(names: &[String], hint: &'static str) -> (r: Option<String>)
    ensures
        ({
            let all = text::texts(names@);
            let wanted = or_else(
                found(all, FilePattern::Hint(hint)),
                found(all, FilePattern::Hint("large")),
            );
            match r {
                Some(name) => wanted == Some(name@),
                None => wanted is None,
            }
        }),
{
    match find_file(names, FilePattern::Hint(hint)) {
        Some(name) => Some(name),
        None => find_file(names, FilePattern::Hint("large")),
    }
}

fn try_whisper(names: &[String]) -> (r: Option<ModelLayout>)
    ensures
        layout_view(r) == whisper(text::texts(names@)),
{
    match (
        find_by_hint_or_large(names, "encoder"),
        find_by_hint_or_large(names, "decoder"),
        find_tokens_file(names),
    ) {
        (Some(encoder), Some(decoder), Some(tokens)) => Some(
            ModelLayout::Whisper { encoder, decoder, tokens },
        ),
        _ => None,
    }
}

fn try_single_file(names: &[String]) -> (r: Option<String>)
    ensures
        match r {
            Some(model) => single_file(text::texts(names@)) == Some(model@),
            None => single_file(text::texts(names@)) is None,
        },
{
    if !has_file(names, "tokens.txt") {
        return None;
    }
    if has_file(names, "model.onnx") {
        return Some("model.onnx".to_string());
    }
    if has_file(names, "model.int8.onnx") {
        return Some("model.int8.onnx".to_string());
    }
    None
}

/// The model that a directory holds, when the families that the hint names and that the name of
/// the directory suggests are known.
pub fn recognize_layout(
    names: &[String],
    has_tokenizer_dir: bool,
    hinted: Option<ForcedFamily>,
    suggested: Option<ForcedFamily>,
) -> (r: Result<ModelLayout, ModelError>)
    ensures
        match r {
            Ok(layout) => layout_of(text::texts(names@), has_tokenizer_dir, hinted, suggested)
                == Ok::<LayoutView, ModelError>(layout@),
            Err(error) => layout_of(text::texts(names@), has_tokenizer_dir, hinted, suggested)
                == Err::<LayoutView, ModelError>(error),
        },
{
    if let Some(layout) = try_transducer(names) {
        return Ok(layout);
    }
    if let Some(layout) = try_moonshine(names) {
        return Ok(layout);
    }
    if let Some(layout) = try_qwen3_asr(names, has_tokenizer_dir) {
        return Ok(layout);
    }
    if let Some(layout) = try_whisper(names) {
        return Ok(layout);
    }
    match try_single_file(names) {
        Some(model) => match (hinted, suggested) {
            (Some(family), _) => Ok(
                ModelLayout::SingleFile { family, model, tokens: "tokens.txt".to_string() },
            ),
            (None, Some(family)) => Ok(
                ModelLayout::SingleFile { family, model, tokens: "tokens.txt".to_string() },
            ),
            (None, None) => Err(ModelError::UnknownFamily),
        },
        None => Err(ModelError::UnknownLayout),
    }
}

/// The family that an optional hint names.
pub open spec fn hinted_family(hint: Option<&str>) -> Option<ForcedFamily> {
    match hint {
        Some(hint) => family_named(text::unicode_lowercase(hint@)),
        None => None,
    }
}

/// The model that a directory holds.
pub fn configure_model(dir: &ModelDir, forced_family_hint: Option<&str>) -> (r: Result<
    ModelLayout,
    ModelError,
>)
    ensures
        ({
            let wanted = layout_of(
                text::texts(dir.files@),
                dir.has_tokenizer_dir,
                hinted_family(forced_family_hint),
                family_suggested(text::unicode_lowercase(dir.name@)),
            );
            match r {
                Ok(layout) => wanted == Ok::<LayoutView, ModelError>(layout@),
                Err(error) => wanted == Err::<LayoutView, ModelError>(error),
            }
        }),
{
    let hinted = match forced_family_hint {
        Some(hint) => ForcedFamily::from_hint(hint),
        None => None,
    };
    let suggested = ForcedFamily::guess_from_dir_name(dir.name.as_str());
    recognize_layout(dir.files.as_slice(), dir.has_tokenizer_dir, hinted, suggested)
}

/// What a layout is called.
pub open spec fn layout_label(layout: LayoutView) -> Seq<char> {
    match layout {
        LayoutView::Transducer { .. } => "transducer (Zipformer / NeMo Parakeet-style)"@,
        LayoutView::MoonshineSplit { .. } => "moonshine (split)"@,
        LayoutView::MoonshineMerged { .. } => "moonshine (merged)"@,
        LayoutView::Qwen3Asr { .. } => "qwen3_asr"@,
        LayoutView::Whisper { .. } => "whisper"@,
        LayoutView::SingleFile { family, .. } => family.label(),
    }
}

impl ModelLayout {
    /// What the layout is called.
    pub fn label(&self) -> (r: &'static str)
        ensures
            r@ == layout_label(self@),
    {
        match self {
            ModelLayout::Transducer { .. } => "transducer (Zipformer / NeMo Parakeet-style)",
            ModelLayout::MoonshineSplit { .. } => "moonshine (split)",
            ModelLayout::MoonshineMerged { .. } => "moonshine (merged)",
            ModelLayout::Qwen3Asr { .. } => "qwen3_asr",
            ModelLayout::Whisper { .. } => "whisper",
            ModelLayout::SingleFile { family, .. } => family.name(),
        }
    }
}

/// What is said of a directory in which no model was recognized.
pub open spec fn model_error_text(error: ModelError, dir: Seq<char>) -> Seq<char> {
    match error {
        ModelError::UnknownLayout => "could not identify a supported ASR model family in "@ + dir
            + " (looked for transducer encoder/decoder/joiner, Whisper encoder/decoder, Moonshine's split or merged files, and single-file model.onnx variants)"@,
        ModelError::UnknownFamily => "found a single model.onnx in "@ + dir
            + " but can't tell which family it is -- Paraformer, SenseVoice, NeMo CTC, Zipformer CTC, and TDNN models are all shipped this way and are not distinguishable by filename alone. Set [asr].model_family in config.toml to one of: paraformer, sense_voice, nemo_ctc, zipformer_ctc, tdnn"@,
    }
}

impl ModelError {
    /// What is said of the directory.
    pub fn message(&self, dir: &str) -> (r: String)
        ensures
            r@ == model_error_text(*self, dir@),
    {
        let mut out = String::new();
        match self {
            ModelError::UnknownLayout => {
                out.append("could not identify a supported ASR model family in ");
                out.append(dir);
                out.append(
                    " (looked for transducer encoder/decoder/joiner, Whisper encoder/decoder, Moonshine's split or merged files, and single-file model.onnx variants)",
                );
            },
            ModelError::UnknownFamily => {
                out.append("found a single model.onnx in ");
                out.append(dir);
                out.append(
                    " but can't tell which family it is -- Paraformer, SenseVoice, NeMo CTC, Zipformer CTC, and TDNN models are all shipped this way and are not distinguishable by filename alone. Set [asr].model_family in config.toml to one of: paraformer, sense_voice, nemo_ctc, zipformer_ctc, tdnn",
                );
            },
        }
        assert(out@ =~= model_error_text(*self, dir@));
        out
    }
}

/// The threads that a recognizer runs on.
pub fn recognizer_threads(configured: i32) -> (r: i32)
    ensures
        r == (if configured < 1 {
            1
        } else if configured > 8 {
            8
        } else {
            configured as int
        }),
{
    if configured < 1 {
        1
    } else if configured > 8 {
        8
    } else {
        configured
    }
}

// ---------------------------------------------------------------------------
// Laws of model files
// ---------------------------------------------------------------------------

/// Names are ordered as in a dictionary, by the first letter in which they differ; a name comes
/// before the longer ones that begin with it.
pub proof fn law_names_are_in_dictionary_order(
    common: Seq<char>,
    c: char,
    d: char,
    a: Seq<char>,
    b: Seq<char>,
)
    ensures
        c < d ==> precedes(common + seq![c] + a, common + seq![d] + b) && !precedes(
            common + seq![d] + b,
            common + seq![c] + a,
        ),
        precedes(common, common + seq![c] + a),
        !precedes(common + seq![c] + a, common),
        !precedes(common, common),
    decreases common.len(),
{
    let x = common + seq![c] + a;
    let y = common + seq![d] + b;
    if common.len() > 0 {
        let rest = common.drop_first();
        law_names_are_in_dictionary_order(rest, c, d, a, b);
        assert(x.drop_first() =~= rest + seq![c] + a);
        assert(y.drop_first() =~= rest + seq![d] + b);
        assert(x[0] == common[0] && y[0] == common[0]);
    } else {
        assert(x[0] == c && y[0] == d);
    }
}

/// Of two files that fit, a quantized one is taken before one that is not; of two alike the one
/// that comes first in the order of names. For tokens only the order counts.
pub proof fn law_quantized_files_come_first(
    part: FilePattern,
    a: Seq<char>,
    b: Seq<char>,
)
    ensures
        !(part is Tokens) && text::contains(a, "int8"@) && !text::contains(b, "int8"@) ==> preferred(
            part,
            a,
            b,
        ) && !preferred(part, b, a),
        part is Tokens || text::contains(a, "int8"@) == text::contains(b, "int8"@) ==> preferred(
            part,
            a,
            b,
        ) == precedes(a, b),
{
}

/// A file fits where its name has the right ending, and begins with the part that is looked for or,
/// where that may stand further on, holds it behind a dash or an underscore.
pub proof fn law_files_fit_by_name(prefix: &'static str, name: Seq<char>)
    ensures
        fits(FilePattern::Prefix(prefix), name) <==> text::starts_with(name, prefix@)
            && text::ends_with(name, ".onnx"@),
        fits(FilePattern::Hint(prefix), name) <==> text::ends_with(name, ".onnx"@) && (
        text::starts_with(name, prefix@) || text::contains(name, seq!['-'] + prefix@)
            || text::contains(name, seq!['_'] + prefix@)),
        fits(FilePattern::Tokens, name) ==> text::ends_with(name, ".txt"@),
        fits(FilePattern::Tokens, "tokens.txt"@),
        text::ends_with(name, ".txt"@) && (text::contains(name, "-tokens"@) || text::contains(
            name,
            "_tokens"@,
        ) || text::contains(name, ".tokens"@)) ==> fits(FilePattern::Tokens, name),
{
    reveal_strlit("-");
    reveal_strlit("_");
    reveal_strlit("tokens.txt");
    reveal_strlit(".txt");
    assert("-"@ =~= seq!['-']);
    assert("_"@ =~= seq!['_']);
    assert("tokens.txt"@.subrange(6, 10) =~= ".txt"@);
    assert(text::occurs_at("tokens.txt"@, ".txt"@, 6));
}

/// Some file of the directory fits.
pub open spec fn has_fitting(names: Seq<Seq<char>>, part: FilePattern) -> bool {
    exists|i: int| 0 <= i < names.len() && fits(part, #[trigger] names[i])
}

proof fn lemma_found_fits(names: Seq<Seq<char>>, part: FilePattern)
    ensures
        found(names, part) is Some <==> has_fitting(names, part),
        found(names, part) matches Some(name) ==> names.contains(name) && fits(part, name),
{
    law_preferred_file_is_found(names, part);
    if let Some(name) = found(names, part) {
        let i = choose|i: int| 0 <= i < names.len() && names[i] == name;
        assert(fits(part, names[i]));
    }
}

/// Tokens are found where there is a file for them, and `tokens.txt` before any other.
pub proof fn law_tokens_are_found(names: Seq<Seq<char>>)
    ensures
        tokens_file(names) is Some <==> has_fitting(names, FilePattern::Tokens),
        names.contains("tokens.txt"@) ==> tokens_file(names) == Some("tokens.txt"@),
        tokens_file(names) matches Some(name) ==> names.contains(name) && fits(
            FilePattern::Tokens,
            name,
        ),
{
    lemma_found_fits(names, FilePattern::Tokens);
    law_files_fit_by_name("tokens", "tokens.txt"@);
    if names.contains("tokens.txt"@) {
        let i = choose|i: int| 0 <= i < names.len() && names[i] == "tokens.txt"@;
        assert(fits(FilePattern::Tokens, names[i]));
    }
}

/// The files that a transducer is made of.
pub open spec fn holds_transducer(names: Seq<Seq<char>>) -> bool {
    &&& has_fitting(names, FilePattern::Prefix("encoder"))
    &&& has_fitting(names, FilePattern::Prefix("decoder"))
    &&& has_fitting(names, FilePattern::Prefix("joiner"))
    &&& has_fitting(names, FilePattern::Tokens)
}

/// The files that a Moonshine model in two decoders is made of.
pub open spec fn holds_split_moonshine(names: Seq<Seq<char>>) -> bool {
    &&& has_fitting(names, FilePattern::Prefix("encode"))
    &&& has_fitting(names, FilePattern::Tokens)
    &&& names.contains("preprocess.onnx"@)
    &&& has_fitting(names, FilePattern::Prefix("uncached_decode"))
    &&& has_fitting(names, FilePattern::Prefix("cached_decode"))
}

/// The files that a Moonshine model in one decoder is made of.
pub open spec fn holds_merged_moonshine(names: Seq<Seq<char>>) -> bool {
    &&& has_fitting(names, FilePattern::Prefix("encode"))
    &&& has_fitting(names, FilePattern::Tokens)
    &&& has_fitting(names, FilePattern::Prefix("merged_decod"))
}

/// The files that a Qwen model is made of.
pub open spec fn holds_qwen(names: Seq<Seq<char>>, has_tokenizer_dir: bool) -> bool {
    &&& has_fitting(names, FilePattern::Hint("encoder"))
    &&& has_fitting(names, FilePattern::Hint("decoder"))
    &&& names.contains("conv_frontend.onnx"@)
    &&& has_tokenizer_dir
}

/// The files that a Whisper model is made of.
pub open spec fn holds_whisper(names: Seq<Seq<char>>) -> bool {
    let large = has_fitting(names, FilePattern::Hint("large"));
    &&& has_fitting(names, FilePattern::Hint("encoder")) || large
    &&& has_fitting(names, FilePattern::Hint("decoder")) || large
    &&& has_fitting(names, FilePattern::Tokens)
}

/// A model in a single file.
pub open spec fn holds_single_file(names: Seq<Seq<char>>) -> bool {
    &&& names.contains("tokens.txt"@)
    &&& names.contains("model.onnx"@) || names.contains("model.int8.onnx"@)
}

/// Which model a directory holds goes by the files that are there: the first kind, in this order, of
/// which there are all. A model in a single file also needs its family to be known.
pub proof fn law_models_are_known_by_their_files(
    names: Seq<Seq<char>>,
    has_tokenizer_dir: bool,
    hinted: Option<ForcedFamily>,
    suggested: Option<ForcedFamily>,
)
    ensures
        ({
            let layout = layout_of(names, has_tokenizer_dir, hinted, suggested);
            let a = holds_transducer(names);
            let b = holds_split_moonshine(names);
            let c = holds_merged_moonshine(names);
            let d = holds_qwen(names, has_tokenizer_dir);
            let e = holds_whisper(names);
            let f = holds_single_file(names);
            let family = if hinted is Some {
                hinted
            } else {
                suggested
            };
            &&& layout is Ok && layout->Ok_0 is Transducer <==> a
            &&& layout is Ok && layout->Ok_0 is MoonshineSplit <==> !a && b
            &&& layout is Ok && layout->Ok_0 is MoonshineMerged <==> !a && !b && c
            &&& layout is Ok && layout->Ok_0 is Qwen3Asr <==> !a && !b && !c && d
            &&& layout is Ok && layout->Ok_0 is Whisper <==> !a && !b && !c && !d && e
            &&& layout is Ok && layout->Ok_0 is SingleFile <==> !a && !b && !c && !d && !e && f
                && family is Some
            &&& layout == Err::<LayoutView, ModelError>(ModelError::UnknownFamily) <==> !a && !b
                && !c && !d && !e && f && family is None
            &&& layout == Err::<LayoutView, ModelError>(ModelError::UnknownLayout) <==> !a && !b
                && !c && !d && !e && !f
        }),
{
    lemma_all_found(names);
}

/// What is taken for a part of a model fits that part, and is there.
pub proof fn law_parts_of_models_fit(
    names: Seq<Seq<char>>,
    has_tokenizer_dir: bool,
    hinted: Option<ForcedFamily>,
    suggested: Option<ForcedFamily>,
)
    ensures
        match layout_of(names, has_tokenizer_dir, hinted, suggested) {
            Ok(LayoutView::Transducer { encoder, decoder, joiner, tokens }) => {
                &&& is_part(names, FilePattern::Prefix("encoder"), encoder)
                &&& is_part(names, FilePattern::Prefix("decoder"), decoder)
                &&& is_part(names, FilePattern::Prefix("joiner"), joiner)
                &&& is_part(names, FilePattern::Tokens, tokens)
            },
            Ok(LayoutView::MoonshineSplit { encoder, uncached, cached, tokens }) => {
                &&& is_part(names, FilePattern::Prefix("encode"), encoder)
                &&& is_part(names, FilePattern::Prefix("uncached_decode"), uncached)
                &&& is_part(names, FilePattern::Prefix("cached_decode"), cached)
                &&& is_part(names, FilePattern::Tokens, tokens)
            },
            Ok(LayoutView::MoonshineMerged { encoder, merged, tokens }) => {
                &&& is_part(names, FilePattern::Prefix("encode"), encoder)
                &&& is_part(names, FilePattern::Prefix("merged_decod"), merged)
                &&& is_part(names, FilePattern::Tokens, tokens)
            },
            Ok(LayoutView::Qwen3Asr { encoder, decoder }) => {
                &&& is_part(names, FilePattern::Hint("encoder"), encoder)
                &&& is_part(names, FilePattern::Hint("decoder"), decoder)
            },
            Ok(LayoutView::Whisper { encoder, decoder, tokens }) => {
                &&& is_part(names, FilePattern::Hint("encoder"), encoder) || (!has_fitting(
                    names,
                    FilePattern::Hint("encoder"),
                ) && is_part(names, FilePattern::Hint("large"), encoder))
                &&& is_part(names, FilePattern::Hint("decoder"), decoder) || (!has_fitting(
                    names,
                    FilePattern::Hint("decoder"),
                ) && is_part(names, FilePattern::Hint("large"), decoder))
                &&& is_part(names, FilePattern::Tokens, tokens)
            },
            Ok(LayoutView::SingleFile { family, model, tokens }) => {
                &&& Some(family) == (if hinted is Some {
                    hinted
                } else {
                    suggested
                })
                &&& names.contains(model)
                &&& model == (if names.contains("model.onnx"@) {
                    "model.onnx"@
                } else {
                    "model.int8.onnx"@
                })
                &&& tokens == "tokens.txt"@
            },
            Err(_) => true,
        },
{
    lemma_all_found(names);
}

/// The file is there and fits, and is preferred to all others that do. Of tokens, `tokens.txt` is
/// taken in any case.
pub open spec fn is_part(names: Seq<Seq<char>>, part: FilePattern, name: Seq<char>) -> bool {
    &&& names.contains(name)
    &&& fits(part, name)
    &&& (part is Tokens && name == "tokens.txt"@) || forall|i: int|
        0 <= i < names.len() && fits(part, #[trigger] names[i]) && names[i] != name ==> preferred(
            part,
            name,
            names[i],
        )
}

proof fn lemma_all_found(names: Seq<Seq<char>>)
    ensures
        forall|part: FilePattern| #[trigger]
            found(names, part) is Some <==> has_fitting(names, part),
        forall|part: FilePattern| #[trigger]
            found(names, part) is Some ==> is_part(names, part, found(names, part).unwrap()),
        tokens_file(names) is Some <==> has_fitting(names, FilePattern::Tokens),
        tokens_file(names) is Some ==> is_part(
            names,
            FilePattern::Tokens,
            tokens_file(names).unwrap(),
        ),
{
    assert forall|part: FilePattern| #[trigger]
        found(names, part) is Some <==> has_fitting(names, part) by {
        lemma_found_fits(names, part);
    }
    assert forall|part: FilePattern| #[trigger] found(names, part) is Some implies is_part(
        names,
        part,
        found(names, part).unwrap(),
    ) by {
        law_preferred_file_is_found(names, part);
    }
    law_tokens_are_found(names);
}

/// A family is called by its label, with underscores or dashes, and is called by nothing but its
/// label or that without them.
pub proof fn law_families_are_called_by_their_labels(lowered: Seq<char>, family: ForcedFamily)
    requires
        family_named(lowered) == Some(family),
    ensures
        ({
            let name = text::replaced(lowered, seq!['-'], seq!['_']);
            &&& family is Paraformer ==> name == "paraformer"@
            &&& family is SenseVoice ==> name == "sense_voice"@ || name == "sensevoice"@
            &&& family is NemoCtc ==> name == "nemo_ctc"@ || name == "nemoctc"@
            &&& family is ZipformerCtc ==> name == "zipformer_ctc"@ || name == "zipformerctc"@
            &&& family is Tdnn ==> name == "tdnn"@
        }),
{
}

/// The name of a directory suggests the family whose name it holds; of several, the first in this
/// order.
pub proof fn law_directories_suggest_their_family(lowered: Seq<char>)
    ensures
        ({
            let sense = text::contains(lowered, "sense-voice"@) || text::contains(
                lowered,
                "sense_voice"@,
            ) || text::contains(lowered, "sensevoice"@);
            let para = text::contains(lowered, "paraformer"@);
            let zip = text::contains(lowered, "zipformer"@) && text::contains(lowered, "ctc"@);
            let nemo = text::contains(lowered, "nemo"@) || text::contains(lowered, "giga-am"@)
                || text::contains(lowered, "gigaam"@);
            let tdnn = text::contains(lowered, "tdnn"@);
            let family = family_suggested(lowered);
            &&& family == Some(ForcedFamily::SenseVoice) <==> sense
            &&& family == Some(ForcedFamily::Paraformer) <==> !sense && para
            &&& family == Some(ForcedFamily::ZipformerCtc) <==> !sense && !para && zip
            &&& family == Some(ForcedFamily::NemoCtc) <==> !sense && !para && !zip && nemo
            &&& family == Some(ForcedFamily::Tdnn) <==> !sense && !para && !zip && !nemo && tdnn
            &&& family is None <==> !sense && !para && !zip && !nemo && !tdnn
        }),
{
}

/// A family's label calls that family.
pub proof fn law_labels_call_their_family(family: ForcedFamily)
    ensures
        family_named(family.label()) == Some(family),
        layout_label(
            LayoutView::SingleFile { family, model: Seq::empty(), tokens: Seq::empty() },
        ) == family.label(),
{
    reveal_strlit("paraformer");
    reveal_strlit("sense_voice");
    reveal_strlit("sensevoice");
    reveal_strlit("nemo_ctc");
    reveal_strlit("nemoctc");
    reveal_strlit("zipformer_ctc");
    reveal_strlit("zipformerctc");
    reveal_strlit("tdnn");
    let label = family.label();
    assert forall|i: int| 0 <= i < label.len() implies label[i] != '-' by {}
    lemma_nothing_replaced(label);
    assert("paraformer"@.len() == 10 && "sense_voice"@.len() == 11 && "sensevoice"@.len() == 10
        && "nemo_ctc"@.len() == 8 && "nemoctc"@.len() == 7 && "zipformer_ctc"@.len() == 13
        && "zipformerctc"@.len() == 12 && "tdnn"@.len() == 4);
    assert("paraformer"@[0] == 'p');
}

proof fn lemma_nothing_replaced(s: Seq<char>)
    requires
        forall|i: int| 0 <= i < s.len() ==> s[i] != '-',
    ensures
        text::replaced(s, seq!['-'], seq!['_']) == s,
    decreases s.len(),
{
    if s.len() > 0 {
        assert(s.subrange(0, 1)[0] == s[0]);
        assert(seq!['-'][0] == '-');
        assert(!text::starts_with(s, seq!['-']));
        lemma_nothing_replaced(s.drop_first());
        assert(seq![s[0]] + s.drop_first() =~= s);
    }
}

/// A layout is told as it is, each file in its place, and a hint only where there is one. The error
/// names the directory.
pub proof fn law_layouts_are_told_as_they_are(
    encoder: String,
    decoder: String,
    joiner: String,
    tokens: String,
    family: ForcedFamily,
    hint: &str,
    dir: Seq<char>,
)
    ensures
        (ModelLayout::Transducer { encoder, decoder, joiner, tokens })@ == (
        LayoutView::Transducer {
            encoder: encoder@,
            decoder: decoder@,
            joiner: joiner@,
            tokens: tokens@,
        }),
        (ModelLayout::MoonshineSplit { encoder, uncached: decoder, cached: joiner, tokens })@ == (
        LayoutView::MoonshineSplit {
            encoder: encoder@,
            uncached: decoder@,
            cached: joiner@,
            tokens: tokens@,
        }),
        (ModelLayout::MoonshineMerged { encoder, merged: decoder, tokens })@ == (
        LayoutView::MoonshineMerged { encoder: encoder@, merged: decoder@, tokens: tokens@ }),
        (ModelLayout::Qwen3Asr { encoder, decoder })@ == (LayoutView::Qwen3Asr {
            encoder: encoder@,
            decoder: decoder@,
        }),
        (ModelLayout::Whisper { encoder, decoder, tokens })@ == (LayoutView::Whisper {
            encoder: encoder@,
            decoder: decoder@,
            tokens: tokens@,
        }),
        (ModelLayout::SingleFile { family, model: encoder, tokens })@ == (LayoutView::SingleFile {
            family,
            model: encoder@,
            tokens: tokens@,
        }),
        hinted_family(None) is None,
        hinted_family(Some(hint)) == family_named(text::unicode_lowercase(hint@)),
        ("could not identify a supported ASR model family in "@ + dir).is_prefix_of(
            model_error_text(ModelError::UnknownLayout, dir),
        ),
        ("found a single model.onnx in "@ + dir).is_prefix_of(
            model_error_text(ModelError::UnknownFamily, dir),
        ),
{
    let a = "could not identify a supported ASR model family in "@ + dir;
    let b = "found a single model.onnx in "@ + dir;
    assert(a =~= model_error_text(ModelError::UnknownLayout, dir).subrange(0, a.len() as int));
    assert(b =~= model_error_text(ModelError::UnknownFamily, dir).subrange(0, b.len() as int));
}

} // verus!
