use vstd::prelude::*;

verus! {

/// What the distiller tells of a skill file.
#[derive(Debug, Clone)]
pub struct SkillMetadata {
    pub name: String,
    pub description: String,
    pub tags: Vec<String>,
    pub quality_score: u32,
    pub is_slop: bool,
    pub word_count: usize,
}

/// The skill distiller; its script-driven analysis is switched off.
pub struct SkillDistiller;

impl SkillDistiller {
    /// A distiller for the script at the given path; the path is not read.
    pub fn new(_script_path: &str) -> (r: Result<SkillDistiller, String>)
        ensures
            r is Ok,
    {
        Ok(SkillDistiller)
    }

    /// The analysis of a skill file: with the distiller switched off, the same
    /// "disabled" answer for every file.
    pub fn analyze_file(&self, _file_path: &str) -> (r: Result<SkillMetadata, String>)
        ensures
            r matches Ok(m) && m.name@ == "Disabled"@ && m.description@ == "Python distiller is disabled"@
                && m.tags@.len() == 0 && m.quality_score == 0 && m.is_slop && m.word_count == 0,
    {
        Ok(
            SkillMetadata {
                name: "Disabled".to_string(),
                description: "Python distiller is disabled".to_string(),
                tags: Vec::new(),
                quality_score: 0,
                is_slop: true,
                word_count: 0,
            },
        )
    }
}

} // verus!
