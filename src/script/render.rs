//! Scripts whose text is a template, with a fetch that runs as written
//! (raw) or is compiled into a scope query first (scope).
use vstd::prelude::*;
use crate::compiler::{compiled, CompileError};
use crate::store::Storage;

verus! {

/// How a script's fetch query is run.
#[derive(Debug, Clone, Copy, PartialEq, Eq)]
pub enum FetchMode {
    /// As written; the template is filled once per result row.
    Raw,
    /// Compiled into a scope query; the template is filled once per root object.
    Scope,
}

impl Default for FetchMode {
    fn default() -> (r: FetchMode)
        ensures
            r == FetchMode::Scope,
    {
        FetchMode::Scope
    }
}

/// A fetch query, its mode, and the template each result fills.
#[derive(Debug, Clone)]
pub struct Script {
    pub fetch: String,
    pub mode: FetchMode,
    pub act: String,
}

impl Script {
    /// The statement to run for this script: the fetch itself in raw mode,
    /// its scope query in scope mode.
    pub fn fetch_sql<P>(&self, storage: &Storage<P>) -> (r: Result<String, CompileError>)
        ensures
            self.mode == FetchMode::Raw ==> (r matches Ok(sql) && sql@ == self.fetch@),
            self.mode == FetchMode::Scope ==> match compiled(storage.schema, self.fetch@) {
                Ok(sql) => r matches Ok(out) && out@ == sql,
                Err(None) => r matches Err(CompileError::RootTableNotFound { fragment }) && fragment@ == self.fetch@,
                Err(Some(name)) => r matches Err(CompileError::RootTableUnknown { table }) && table@ == name,
            },
    {
        match self.mode {
            FetchMode::Raw => Ok(self.fetch.clone()),
            FetchMode::Scope => storage.build_scope_query(self.fetch.as_str()),
        }
    }
}

} // verus!
