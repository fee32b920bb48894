//! The second generator's configuration: like the first, but the editor
//! choice may be the built-in editor with its own keymap, and plugins
//! carry a key-value configuration.

use crate::bridge::KeyMapListProtocal;
use vstd::prelude::*;

verus! {

/// Which editor the generator opens: the built-in one with its
/// configuration, or a named external command.
#[derive(Debug)]
pub enum EditorChoice {
    Local(EditorConfig),
    Other(String),
}

impl Default for EditorChoice {
    fn default() -> (r: Self)
        ensures
            r matches EditorChoice::Local(c) && c.keymap is None,
    {
        Self::Local(EditorConfig { keymap: None })
    }
}

/// Configuration of the built-in editor.
#[derive(Debug)]
pub struct EditorConfig {
    pub keymap: Option<KeyMapListProtocal>,
}

/// An external helper with its own key-value settings.
#[derive(Debug)]
pub struct Plugin {
    pub name: String,
    pub command: String,
    pub config: Vec<(String, String)>,
}

/// The generator's section of the configuration file.
#[derive(Debug)]
pub struct GeneratorConfig {
    pub editor: EditorChoice,
    pub plugins: Option<Vec<Plugin>>,
    /// Filled from the judge's language list, not from the file.
    pub supported_code_types: Vec<String>,
}

/// The part of the judge's configuration the generator needs.
#[derive(Debug)]
pub struct PartialEvaluatorConfig {
    pub languages: Vec<PartialLanguageProfile>,
}

#[derive(Debug)]
pub struct PartialLanguageProfile {
    pub extension: String,
}

/// The whole configuration file, as far as this generator reads it.
#[derive(Debug)]
pub struct ConfigRoot {
    pub evaluator: PartialEvaluatorConfig,
    pub generator: Option<GeneratorConfig>,
}

impl ConfigRoot {
    /// The generator's configuration, with the supported code types
    /// taken from the judge's language extensions.
    pub fn into_config(self) -> (r: GeneratorConfig)
        ensures
            self.generator matches Some(g) ==> r.editor == g.editor && r.plugins == g.plugins,
            self.generator is None ==> (r.editor matches EditorChoice::Local(c) && c.keymap
                is None) && r.plugins is None,
            r.supported_code_types@.len() == self.evaluator.languages@.len(),
            forall|i: int|
                0 <= i < self.evaluator.languages@.len()
                    ==> #[trigger] r.supported_code_types@[i]
                    == self.evaluator.languages@[i].extension,
    {
        let mut config = match self.generator {
            Some(g) => g,
            None => GeneratorConfig {
                editor: EditorChoice::Local(EditorConfig { keymap: None }),
                plugins: None,
                supported_code_types: Vec::new(),
            },
        };

        let mut types: Vec<String> = Vec::new();
        let mut i: usize = 0;
        let langs = self.evaluator.languages;
        while i < langs.len()
            invariant
                i <= langs@.len(),
                types@.len() == i,
                forall|k: int| 0 <= k < i ==> #[trigger] types@[k] == langs@[k].extension,
            decreases langs@.len() - i,
        {
            types.push(langs[i].extension.clone());
            i = i + 1;
        }
        config.supported_code_types = types;
        config
    }
}

/// An optional value read from a dialogue: empty input means none.
#[derive(Debug)]
pub struct OptionalInput<T> {
    pub value: Option<T>,
}

impl<T> OptionalInput<T> {
    pub fn new(value: Option<T>) -> (r: Self)
        ensures
            r.value == value,
    {
        OptionalInput { value }
    }
}

/// A menu label carrying the index of the entry it stands for, if any.
pub struct LabelWithOptionIndex {
    pub label: String,
    pub index: Option<usize>,
}

impl LabelWithOptionIndex {
    pub fn new(index: Option<usize>, label: String) -> (r: Self)
        ensures
            r.label == label,
            r.index == index,
    {
        Self { label, index }
    }
}

} // verus!
