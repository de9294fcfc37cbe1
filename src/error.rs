use vstd::prelude::*;
use crate::text::{chars_of, chars_to_string};

verus! {

/// Severity of a diagnostic.
#[derive(Clone, Copy, Debug, PartialEq, Eq, Structural)]
pub enum CompileErrorLevel {
    Warning,
    Error,
}

/// Toolchain stage in which a diagnostic arose.
#[derive(Clone, Copy, Debug, PartialEq, Eq, Structural)]
pub enum CompileStage {
    Compile,
    Link,
}

/// A diagnostic: its severity, its stage and its message.
#[derive(Clone, Debug, PartialEq, Eq)]
pub struct CompileError {
    pub level: CompileErrorLevel,
    pub stage: CompileStage,
    pub content: String,
}

impl CompileError {
    /// Whether this is an error of the compile stage.
    pub open spec fn is_compile_stage_error(&self) -> bool {
        self.level == CompileErrorLevel::Error && self.stage == CompileStage::Compile
    }

    pub fn new(level: CompileErrorLevel, stage: CompileStage, content: &str) -> (r: Self)
        ensures
            r.level == level,
            r.stage == stage,
            r.content@ == content@,
    {
        CompileError { level, stage, content: content.to_string() }
    }

    /// An error of the compile stage.
    pub fn compile_stage_error(content: &str) -> (r: Self)
        ensures
            r.level == CompileErrorLevel::Error,
            r.stage == CompileStage::Compile,
            r.content@ == content@,
    {
        Self::new(CompileErrorLevel::Error, CompileStage::Compile, content)
    }

    /// The message carried by this diagnostic.
    pub fn error_message(&self) -> (r: String)
        ensures
            r@ == self.content@,
    {
        self.content.clone()
    }

    /// The report line: `SCCompiler <stage> stage <level>: <message>`.
    pub open spec fn report_spec(&self) -> Seq<char> {
        "SCCompiler "@
            + match self.stage {
                CompileStage::Compile => "compile "@,
                CompileStage::Link => "link "@,
            }
            + "stage "@
            + match self.level {
                CompileErrorLevel::Warning => "warning: "@,
                CompileErrorLevel::Error => "error: "@,
            }
            + self.content@
    }

    /// The line that reports this diagnostic.
    pub fn report_text(&self) -> (r: String)
        ensures
            r@ == self.report_spec(),
    {
        let mut v = chars_of("SCCompiler ");
        let mut stage = match self.stage {
            CompileStage::Compile => chars_of("compile "),
            CompileStage::Link => chars_of("link "),
        };
        v.append(&mut stage);
        let mut word = chars_of("stage ");
        v.append(&mut word);
        let mut level = match self.level {
            CompileErrorLevel::Warning => chars_of("warning: "),
            CompileErrorLevel::Error => chars_of("error: "),
        };
        v.append(&mut level);
        let mut content = chars_of(self.content.as_str());
        v.append(&mut content);
        proof {
            assert(v@ =~= self.report_spec());
        }
        chars_to_string(&v)
    }
}

} // verus!
