//! The templating pre-pass: renders `{{ name }}` placeholders against a
//! key-value context before the grammar engine runs.
use vstd::prelude::*;
use crate::error::{Error, SpecError};

verus! {

/// What the templating engine returns for a template and a context:
/// rendering is a pure function of the two.
pub uninterp spec fn render_of(text: Seq<char>, ctx: Map<Seq<char>, Seq<char>>) -> Seq<char>;

/// Whether rendering a template against a context succeeds: like the
/// rendered text itself, a pure function of the two.
pub uninterp spec fn render_ok(text: Seq<char>, ctx: Map<Seq<char>, Seq<char>>) -> bool;

/// The variables a template is rendered against.  Setting a name twice
/// keeps the later value.
pub struct TemplateContext {
    pairs: Vec<(String, String)>,
}

/// The mapping a pair list denotes: later pairs overwrite earlier ones.
pub open spec fn pairs_map(entries: Seq<(String, String)>) -> Map<Seq<char>, Seq<char>>
    decreases entries.len(),
{
    if entries.len() == 0 {
        Map::empty()
    } else {
        pairs_map(entries.drop_last()).insert(entries.last().0@, entries.last().1@)
    }
}

impl View for TemplateContext {
    type V = Map<Seq<char>, Seq<char>>;

    closed spec fn view(&self) -> Map<Seq<char>, Seq<char>> {
        pairs_map(self.pairs@)
    }
}

impl TemplateContext {
    /// A context with no variables.
    pub fn new() -> (r: TemplateContext)
        ensures
            r@ == Map::<Seq<char>, Seq<char>>::empty(),
    {
        TemplateContext { pairs: Vec::new() }
    }

    /// Binds a variable, overwriting any earlier binding of the same name.
    pub fn set(&mut self, name: &str, value: &str)
        ensures
            final(self)@ == old(self)@.insert(name@, value@),
    {
        let entry = (name.to_owned(), value.to_owned());
        self.pairs.push(entry);
        proof {
            assert(self.pairs@.drop_last() =~= old(self).pairs@);
        }
    }
}

/// Relies on minijinja's `Environment::render_str` with a fresh default
/// environment: rendering is a pure function of the template text and the
/// context, so whether it succeeds is [`render_ok`] of the two and a
/// success returns exactly [`render_of`] of the two.
#[verifier::external_body]
pub(crate) fn render_text(input: &str, context: &TemplateContext) -> (r: Result<String, Error>)
    ensures
        r is Ok <==> render_ok(input@, context@),
        r matches Ok(s) ==> s@ == render_of(input@, context@),
        r matches Err(e) ==> e@ == SpecError::Render,
{
    let env = minijinja::Environment::new();
    let vars: std::collections::BTreeMap<String, String> =
        context.pairs.iter().cloned().collect();
    match env.render_str(input, vars) {
        Ok(s) => Ok(s),
        Err(e) => Err(Error::Render { message: e.to_string() }),
    }
}

} // verus!
