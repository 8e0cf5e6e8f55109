use vstd::prelude::*;

verus! {

/// Where the style and the slide templates are to be read from; unset
/// parts fall back to the built-in defaults.
pub struct ConfigBuilder {
    pub style: Option<String>,
    pub templates: Option<Vec<String>>,
}

impl Default for ConfigBuilder {
    /// Neither a style nor templates.
    fn default() -> (r: ConfigBuilder)
        ensures
            r.style is None,
            r.templates is None,
    {
        ConfigBuilder { style: None, templates: None }
    }
}

impl ConfigBuilder {
    /// Reads the style from the file at `path`.
    pub fn with_style(&mut self, path: String)
        ensures
            final(self).style == Some(path),
            final(self).templates == old(self).templates,
    {
        self.style = Some(path);
    }

    /// Reads the slide templates from the files at `paths`.
    pub fn with_templates(&mut self, paths: Vec<String>)
        ensures
            final(self).templates == Some(paths),
            final(self).style == old(self).style,
    {
        self.templates = Some(paths);
    }
}

} // verus!
