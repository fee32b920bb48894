//! The generator's configuration and settings: plain data read from
//! YAML outside, and the pure merging decisions over it.

use vstd::prelude::*;

verus! {

/// The generator's section of the configuration file.
#[derive(Debug)]
pub struct GeneratorConfig {
    pub editor: Option<String>,
    pub plugins: Option<Vec<Plugin>>,
    /// Filled from the judge's language list, not from the file.
    pub supported_code_types: Vec<String>,
}

/// An external helper the generator can launch.
#[derive(Debug)]
pub struct Plugin {
    pub name: String,
    pub command: String,
}

/// The part of the judge's configuration the generator needs.
#[derive(Debug)]
pub struct PartialEvaluatorConfig {
    pub languages: Vec<PartialLanguageProfile>,
}

#[derive(Debug)]
pub struct PartialLanguageProfile {
    pub extension: String,
}

/// The whole configuration file, as far as the generator reads it.
#[derive(Debug)]
pub struct ConfigRoot {
    pub evaluator: PartialEvaluatorConfig,
    pub generator: Option<GeneratorConfig>,
}

impl ConfigRoot {
    /// The generator's configuration, with the supported code types
    /// taken from the judge's language extensions.
    pub fn into_config(self) -> (r: GeneratorConfig)
        ensures
            r.editor == (match self.generator {
                Some(g) => g.editor,
                None => None::<String>,
            }),
            r.plugins == (match self.generator {
                Some(g) => g.plugins,
                None => None::<Vec<Plugin>>,
            }),
            r.supported_code_types@.len() == self.evaluator.languages@.len(),
            forall|i: int|
                0 <= i < self.evaluator.languages@.len()
                    ==> #[trigger] r.supported_code_types@[i]
                    == self.evaluator.languages@[i].extension,
    {
        let mut config = match self.generator {
            Some(g) => g,
            None => GeneratorConfig {
                editor: None,
                plugins: None,
                supported_code_types: Vec::new(),
            },
        };

        let mut types: Vec<String> = Vec::new();
        let mut i: usize = 0;
        let langs = self.evaluator.languages;
        while i < langs.len()
            invariant
                i <= langs@.len(),
                types@.len() == i,
                forall|k: int|
                    0 <= k < i ==> #[trigger] types@[k] == langs@[k].extension,
            decreases langs@.len() - i,
        {
            types.push(langs[i].extension.clone());
            i = i + 1;
        }
        config.supported_code_types = types;
        config
    }
}

/// The generator's lighter settings file.
#[derive(Debug)]
pub struct Setting {
    pub editor: Option<String>,
    pub plugins: Option<Vec<SettingPlugin>>,
}

/// An external helper as the settings file names it: a menu label and
/// the command line to run.
#[derive(Debug)]
pub struct SettingPlugin {
    pub option: String,
    pub command: Vec<String>,
}

/// The settings file with only the generator's section kept.
#[derive(Debug)]
pub struct SettingRoot {
    pub generator: Option<Setting>,
}

impl SettingRoot {
    pub fn as_config(self) -> (r: Setting)
        ensures
            r == (match self.generator {
                Some(g) => g,
                None => Setting { editor: None::<String>, plugins: None::<Vec<SettingPlugin>> },
            }),
    {
        match self.generator {
            Some(g) => g,
            None => Setting { editor: None, plugins: None },
        }
    }
}

/// A missing settings section means default settings.
pub fn flatten_config(config: Option<Setting>) -> (r: Setting)
    ensures
        r == (match config {
            Some(c) => c,
            None => Setting { editor: None::<String>, plugins: None::<Vec<SettingPlugin>> },
        }),
{
    match config {
        Some(c) => c,
        None => Setting { editor: None, plugins: None },
    }
}

} // verus!
