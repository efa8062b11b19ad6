//! Resolution of the directives attached to a field.

use crate::classify::text_is;
use crate::schema::{models_of, text_of, Directive, DirectiveModel};
use vstd::prelude::*;

verus! {

/// The settings that a field's directives amount to.
#[derive(Debug, PartialEq, Eq)]
pub struct Settings {
    /// The name asked for the setter that takes one element at a time.
    pub each: Option<String>,
}

/// The mathematical value of [`Settings`].
pub struct SettingsModel {
    pub each: Option<Seq<char>>,
}

impl View for Settings {
    type V = SettingsModel;

    open spec fn view(&self) -> SettingsModel {
        SettingsModel { each: text_of(self.each) }
    }
}

/// The one key that is recognized.
pub open spec fn each_key() -> Seq<char> {
    "each"@
}

/// The settings before any directive is read.
pub open spec fn no_settings() -> SettingsModel {
    SettingsModel { each: None }
}

/// The effect of one directive on the settings gathered so far: a recognized key
/// overwrites its setting, any other key is refused and handed back.
pub open spec fn gathered(settings: SettingsModel, directive: DirectiveModel) -> Result<
    SettingsModel,
    Seq<char>,
> {
    if directive.key == each_key() {
        Ok(SettingsModel { each: Some(directive.value) })
    } else {
        Err(directive.key)
    }
}

/// The directives applied from left to right, stopping at the first that is refused.
pub open spec fn resolved(directives: Seq<DirectiveModel>) -> Result<SettingsModel, Seq<char>>
    decreases directives.len(),
{
    if directives.len() == 0 {
        Ok(no_settings())
    } else {
        match resolved(directives.drop_last()) {
            Ok(settings) => gathered(settings, directives.last()),
            Err(key) => Err(key),
        }
    }
}

/// Whether `result` stands for the outcome `outcome`.
pub open spec fn settings_match(
    result: Result<Settings, String>,
    outcome: Result<SettingsModel, Seq<char>>,
) -> bool {
    match result {
        Ok(settings) => outcome == Ok::<SettingsModel, Seq<char>>(settings@),
        Err(key) => outcome == Err::<SettingsModel, Seq<char>>(key@),
    }
}

/// Applies one directive to the settings gathered so far.
pub fn gather(settings: Settings, directive: &Directive) -> (result: Result<Settings, String>)
    ensures
        settings_match(result, gathered(settings@, directive@)),
{
    if text_is(&directive.key, "each") {
        Ok(Settings { each: Some(directive.value.clone()) })
    } else {
        Err(directive.key.clone())
    }
}

/// Resolves the directives of one field, in the order in which they are attached.
/// A later `each` replaces an earlier one; the first key that is not recognized
/// is the error.
pub fn resolve_directives(directives: &Vec<Directive>) -> (result: Result<Settings, String>)
    ensures
        settings_match(result, resolved(models_of(directives@))),
{
    let ghost models = models_of(directives@);
    let mut settings = Settings { each: None };
    let mut i: usize = 0;
    while i < directives.len()
        invariant
            i <= directives.len(),
            models == models_of(directives@),
            resolved(models.take(i as int)) == Ok::<SettingsModel, Seq<char>>(settings@),
        decreases directives.len() - i,
    {
        proof {
            assert(models.take(i + 1).drop_last() =~= models.take(i as int));
        }
        match gather(settings, &directives[i]) {
            Ok(next) => {
                settings = next;
            },
            Err(key) => {
                proof {
                    lemma_refusal_stays(models, i + 1);
                }
                return Err(key);
            },
        }
        i += 1;
    }
    proof {
        assert(models.take(i as int) =~= models);
    }
    Ok(settings)
}

/// Once a prefix of the directives is refused, so is the whole run, for the same key.
pub proof fn lemma_refusal_stays(directives: Seq<DirectiveModel>, n: int)
    requires
        0 <= n <= directives.len(),
        resolved(directives.take(n)) is Err,
    ensures
        resolved(directives) == resolved(directives.take(n)),
    decreases directives.len() - n,
{
    if n == directives.len() {
        assert(directives.take(n) =~= directives);
    } else {
        assert(directives.take(n + 1).drop_last() =~= directives.take(n));
        lemma_refusal_stays(directives, n + 1);
    }
}

} // verus!
