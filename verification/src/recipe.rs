//! The recipes: `carapace.yaml` and `pmi.yaml`.

use vstd::prelude::*;

use crate::quote::{debug_text, quoted};
use crate::text::{
    law_trim_takes_the_blanks, trim, trimmed, trimmed_end, trimmed_start, white_space,
};

verus! {

/// Why a document was refused.
#[derive(Debug)]
pub enum RecipeError {
    /// It could not be read or written as YAML.
    Parse(serde_yaml::Error),
    /// It breaks a rule.
    Invalid(String),
}

/// A `copy:` source: one path or many.
#[derive(Debug, Clone)]
pub enum FromSpec {
    One(String),
    Many(Vec<String>),
}

impl FromSpec {
    /// Whether this is a list of paths, so that the destination is a directory.
    pub fn is_list(&self) -> (r: bool)
        ensures
            r == (self is Many),
    {
        match self {
            FromSpec::One(_) => false,
            FromSpec::Many(_) => true,
        }
    }
}

/// What a `copy:` directive says.
#[derive(Debug, Clone)]
pub struct CopyDirective {
    /// One source path, or a list of them, relative to the build context.
    pub from: FromSpec,
    /// The destination in the guest; a directory where `from` is a list.
    pub into: String,
    /// The owner to set, by name or by number.
    pub owner: Option<String>,
    /// The group to set, by name or by number.
    pub group: Option<String>,
    /// The mode to set, in octal; not with a list of sources.
    pub mode: Option<String>,
}

/// One step of a build.
#[derive(Debug, Clone)]
pub enum Directive {
    /// Run a shell command in the guest.
    Run(String),
    /// Copy files from the build context into the guest.
    Copy(CopyDirective),
}

/// Why a mapping is no directive, if it is none. It has to have exactly one key, `run` or `copy`,
/// and the key a value.
pub open spec fn keys_fault(
    run: Option<Option<String>>,
    copy: Option<Option<CopyDirective>>,
) -> Option<Seq<char>> {
    match (run, copy) {
        (Some(_), Some(_)) => Some("directive has both `run` and `copy`; use one per list item"@),
        (Some(Some(_)), None) | (None, Some(Some(_))) => None,
        _ => Some("directive must be a `run:` or `copy:` mapping"@),
    }
}

impl Directive {
    /// Makes a directive of the keys that a mapping has: exactly one of `run` and `copy`, with a
    /// value. A key that is absent is `None`, and one that is there without a value is
    /// `Some(None)`.
    pub fn from_keys(run: Option<Option<String>>, copy: Option<Option<CopyDirective>>) -> (r:
        Result<Directive, String>)
        ensures
            match r {
                Ok(Directive::Run(cmd)) => run == Some(Some(cmd)) && copy is None,
                Ok(Directive::Copy(c)) => run is None && copy == Some(Some(c)),
                Err(e) => keys_fault(run, copy) == Some(e@),
            },
    {
        match (run, copy) {
            (Some(_), Some(_)) => Err(
                "directive has both `run` and `copy`; use one per list item".to_owned(),
            ),
            (Some(Some(cmd)), None) => Ok(Directive::Run(cmd)),
            (None, Some(Some(c))) => Ok(Directive::Copy(c)),
            _ => Err("directive must be a `run:` or `copy:` mapping".to_owned()),
        }
    }
}

/// Whether a directive sets a mode on a list of sources.
pub open spec fn mode_on_list(d: Directive) -> bool {
    d matches Directive::Copy(c) && c.mode is Some && c.from is Many
}

/// The message for a directive that sets a mode on a list of sources.
pub open spec fn mode_fault(d: Directive) -> Seq<char> {
    "copy into "@ + debug_text(d->Copy_0.into@)
        + ": `mode` is not allowed when `from` is a list of paths"@
}

/// The fault of the first directive that has one.
pub open spec fn directives_fault(derive: Seq<Directive>) -> Option<Seq<char>>
    decreases derive.len(),
{
    if derive.len() == 0 {
        None
    } else if mode_on_list(derive[0]) {
        Some(mode_fault(derive[0]))
    } else {
        directives_fault(derive.drop_first())
    }
}

/// Whether a check came out as `fault` says.
pub open spec fn checked(r: Result<(), RecipeError>, fault: Option<Seq<char>>) -> bool {
    match fault {
        None => r is Ok,
        Some(text) => r matches Err(RecipeError::Invalid(e)) && e@ == text,
    }
}

/// Checks that no directive sets a mode on a list of sources.
pub fn validate_directives(derive: &Vec<Directive>) -> (r: Result<(), RecipeError>)
    ensures
        checked(r, directives_fault(derive@)),
{
    let mut i: usize = 0;
    assert(derive@.skip(0) =~= derive@);
    while i < derive.len()
        invariant
            i <= derive@.len(),
            directives_fault(derive@.skip(i as int)) == directives_fault(derive@),
        decreases derive@.len() - i,
    {
        assert(derive@.skip(i as int)[0] == derive@[i as int]);
        assert(derive@.skip(i as int).drop_first() =~= derive@.skip(i + 1));
        if let Directive::Copy(c) = &derive[i] {
            if c.mode.is_some() && c.from.is_list() {
                let mut e: String = "copy into ".to_owned();
                e.append(quoted(c.into.as_str()).as_str());
                e.append(": `mode` is not allowed when `from` is a list of paths");
                return Err(RecipeError::Invalid(e));
            }
        }
        i = i + 1;
    }
    Ok(())
}

/// Whether a text holds nothing but white space.
pub open spec fn blank(s: Seq<char>) -> bool {
    trimmed(s).len() == 0
}

/// Whether a text holds nothing but white space.
pub fn is_blank(s: &str) -> (r: bool)
    ensures
        r == blank(s@),
{
    trim(s).unicode_len() == 0
}

/// What `carapace.yaml` says: a read-only carapace derived from one base.
#[derive(Debug, Clone)]
pub struct CarapaceRecipe {
    /// The registry reference to derive from.
    pub from: String,
    /// The steps, in order; each makes one scute.
    pub derive: Vec<Directive>,
}

/// The rule that a `carapace.yaml` breaks first, if any.
pub open spec fn carapace_fault(recipe: CarapaceRecipe) -> Option<Seq<char>> {
    if blank(recipe.from@) {
        Some("carapace.yaml: `from` is empty"@)
    } else {
        directives_fault(recipe.derive@)
    }
}

impl CarapaceRecipe {
    /// Takes the outcome of reading a `carapace.yaml` as YAML and checks the recipe.
    pub fn parse(decoded: Result<CarapaceRecipe, serde_yaml::Error>) -> (r: Result<
        CarapaceRecipe,
        RecipeError,
    >)
        ensures
            match decoded {
                Err(e) => r == Err::<CarapaceRecipe, RecipeError>(RecipeError::Parse(e)),
                Ok(recipe) => match carapace_fault(recipe) {
                    None => r == Ok::<CarapaceRecipe, RecipeError>(recipe),
                    Some(text) => r matches Err(RecipeError::Invalid(e)) && e@ == text,
                },
            },
    {
        match decoded {
            Err(e) => Err(RecipeError::Parse(e)),
            Ok(recipe) => match recipe.validate() {
                Ok(_) => Ok(recipe),
                Err(e) => Err(e),
            },
        }
    }

    /// Checks the rules that go beyond the shape of the document.
    pub fn validate(&self) -> (r: Result<(), RecipeError>)
        ensures
            checked(r, carapace_fault(*self)),
    {
        if is_blank(self.from.as_str()) {
            return Err(RecipeError::Invalid("carapace.yaml: `from` is empty".to_owned()));
        }
        validate_directives(&self.derive)
    }
}

/// What `pmi.yaml` says: the steps that make one `.pmi`.
#[derive(Debug, Clone)]
pub struct PmiRecipe {
    /// The registry reference to build on; the carapace just built where there is none.
    pub from: Option<String>,
    /// The steps, in order; nothing of them is kept.
    pub derive: Vec<Directive>,
    /// Where the steps leave the finished `.pmi`.
    pub into: String,
}

/// The rule that a `pmi.yaml` breaks first, if any.
pub open spec fn pmi_fault(recipe: PmiRecipe) -> Option<Seq<char>> {
    if blank(recipe.into@) {
        Some("pmi.yaml: `into` is empty"@)
    } else if recipe.from matches Some(from) && blank(from@) {
        Some(
            "pmi.yaml: `from` is present but empty (omit it to build against carapace.yaml)"@,
        )
    } else {
        directives_fault(recipe.derive@)
    }
}

impl PmiRecipe {
    /// Takes the outcome of reading a `pmi.yaml` as YAML and checks the recipe.
    pub fn parse(decoded: Result<PmiRecipe, serde_yaml::Error>) -> (r: Result<
        PmiRecipe,
        RecipeError,
    >)
        ensures
            match decoded {
                Err(e) => r == Err::<PmiRecipe, RecipeError>(RecipeError::Parse(e)),
                Ok(recipe) => match pmi_fault(recipe) {
                    None => r == Ok::<PmiRecipe, RecipeError>(recipe),
                    Some(text) => r matches Err(RecipeError::Invalid(e)) && e@ == text,
                },
            },
    {
        match decoded {
            Err(e) => Err(RecipeError::Parse(e)),
            Ok(recipe) => match recipe.validate() {
                Ok(_) => Ok(recipe),
                Err(e) => Err(e),
            },
        }
    }

    /// Checks the rules that go beyond the shape of the document.
    pub fn validate(&self) -> (r: Result<(), RecipeError>)
        ensures
            checked(r, pmi_fault(*self)),
    {
        if is_blank(self.into.as_str()) {
            return Err(RecipeError::Invalid("pmi.yaml: `into` is empty".to_owned()));
        }
        if let Some(from) = &self.from {
            if is_blank(from.as_str()) {
                return Err(
                    RecipeError::Invalid(
                        "pmi.yaml: `from` is present but empty (omit it to build against carapace.yaml)".to_owned(),
                    ),
                );
            }
        }
        validate_directives(&self.derive)
    }
}

/// The directives of a recipe pass exactly where none of them sets a mode on a list of sources,
/// and where one does, the message is about the first that does.
pub proof fn law_modes_are_for_single_sources(derive: Seq<Directive>)
    ensures
        directives_fault(derive) is None <==> forall|i: int|
            0 <= i < derive.len() ==> !mode_on_list(#[trigger] derive[i]),
        forall|i: int|
            0 <= i < derive.len() && mode_on_list(#[trigger] derive[i]) && (forall|j: int|
                0 <= j < i ==> !mode_on_list(#[trigger] derive[j])) ==> directives_fault(derive)
                == Some(mode_fault(derive[i])),
    decreases derive.len(),
{
    if derive.len() > 0 {
        let rest = derive.drop_first();
        law_modes_are_for_single_sources(rest);
        assert forall|i: int| 0 <= i < rest.len() implies rest[i] == #[trigger] derive[i + 1] by {}
        if mode_on_list(derive[0]) {
            assert forall|i: int|
                0 <= i < derive.len() && mode_on_list(#[trigger] derive[i]) && (forall|j: int|
                    0 <= j < i ==> !mode_on_list(#[trigger] derive[j])) implies directives_fault(
                derive,
            ) == Some(mode_fault(derive[i])) by {
                if i > 0 {
                    assert(!mode_on_list(derive[0]));
                }
            }
        } else {
            assert(forall|i: int|
                0 <= i < derive.len() && mode_on_list(#[trigger] derive[i]) ==> i > 0);
            assert forall|i: int|
                0 <= i < derive.len() && mode_on_list(#[trigger] derive[i]) && (forall|j: int|
                    0 <= j < i ==> !mode_on_list(#[trigger] derive[j])) implies directives_fault(
                derive,
            ) == Some(mode_fault(derive[i])) by {
                assert(rest[i - 1] == derive[i]);
                assert forall|j: int| 0 <= j < i - 1 implies !mode_on_list(#[trigger] rest[j]) by {
                    assert(rest[j] == derive[j + 1]);
                }
            }
            if directives_fault(rest) is None {
                assert forall|i: int| 0 <= i < derive.len() implies !mode_on_list(
                    #[trigger] derive[i],
                ) by {
                    if i > 0 {
                        assert(rest[i - 1] == derive[i]);
                    }
                }
            } else {
                assert(exists|i: int| 0 <= i < rest.len() && mode_on_list(#[trigger] rest[i]));
                let i = choose|i: int| 0 <= i < rest.len() && mode_on_list(#[trigger] rest[i]);
                assert(mode_on_list(derive[i + 1]));
            }
        }
    }
}

/// A text is blank exactly where every character of it is white space.
pub proof fn law_blank_is_all_white_space(s: Seq<char>)
    ensures
        blank(s) <==> forall|i: int| 0 <= i < s.len() ==> white_space(#[trigger] s[i]),
{
    let none = Seq::<char>::empty();
    if forall|i: int| 0 <= i < s.len() ==> white_space(#[trigger] s[i]) {
        law_trim_takes_the_blanks(s, none, none);
        assert(s + none + none =~= s);
    } else {
        let i = choose|i: int| 0 <= i < s.len() && !white_space(#[trigger] s[i]);
        let k = lemma_kept_at_start(s, i);
        lemma_kept_at_end(trimmed_start(s), k);
    }
}

proof fn lemma_kept_at_start(s: Seq<char>, i: int) -> (k: int)
    requires
        0 <= i < s.len(),
        !white_space(s[i]),
    ensures
        0 <= k < trimmed_start(s).len(),
        !white_space(trimmed_start(s)[k]),
    decreases s.len(),
{
    if white_space(s.first()) {
        assert(s.drop_first()[i - 1] == s[i]);
        lemma_kept_at_start(s.drop_first(), i - 1)
    } else {
        i
    }
}

proof fn lemma_kept_at_end(s: Seq<char>, i: int)
    requires
        0 <= i < s.len(),
        !white_space(s[i]),
    ensures
        trimmed_end(s).len() > 0,
    decreases s.len(),
{
    if white_space(s.last()) {
        assert(s.drop_last()[i] == s[i]);
        lemma_kept_at_end(s.drop_last(), i);
    }
}

/// A `carapace.yaml` passes exactly where its source is not blank and no copy of several sources
/// sets a mode. A `pmi.yaml` passes exactly where its result is not blank, its source, where it
/// names one, is not blank, and no copy of several sources sets a mode.
pub proof fn law_recipes_pass_exactly_on_the_rules(carapace: CarapaceRecipe, pmi: PmiRecipe)
    ensures
        carapace_fault(carapace) is None <==> !blank(carapace.from@) && (forall|i: int|
            0 <= i < carapace.derive@.len() ==> ((#[trigger] carapace.derive@[i]) matches
                Directive::Copy(c) ==> c.mode is None || c.from is One)),
        pmi_fault(pmi) is None <==> !blank(pmi.into@) && (pmi.from matches Some(from) ==> !blank(
            from@,
        )) && (forall|i: int|
            0 <= i < pmi.derive@.len() ==> ((#[trigger] pmi.derive@[i]) matches Directive::Copy(c)
                ==> c.mode is None || c.from is One)),
{
    lemma_directives(carapace.derive@);
    lemma_directives(pmi.derive@);
}

proof fn lemma_directives(derive: Seq<Directive>)
    ensures
        directives_fault(derive) is None <==> forall|i: int|
            0 <= i < derive.len() ==> ((#[trigger] derive[i]) matches Directive::Copy(c)
                ==> c.mode is None || c.from is One),
{
    law_modes_are_for_single_sources(derive);
    if directives_fault(derive) is None {
        assert forall|i: int| 0 <= i < derive.len() implies ((
        #[trigger] derive[i]) matches Directive::Copy(c) ==> c.mode is None || c.from is One) by {
            assert(!mode_on_list(derive[i]));
        }
    } else {
        let i = choose|i: int| 0 <= i < derive.len() && mode_on_list(#[trigger] derive[i]);
        assert(derive[i] is Copy);
    }
}

} // verus!
