//! The store handle: the database connection together with the schema it
//! was built from, which the compiler consults.
use vstd::prelude::*;
use crate::compiler::{compile_scope_query, compiled, CompileError};
use crate::schema::SchemaConfig;

verus! {

/// A loaded project: a handle on the database that holds its rows (the
/// engine's connection pool), and the schema it was built from.
pub struct Storage<P> {
    pub pool: P,
    pub schema: SchemaConfig,
}

impl<P> Storage<P> {
    /// Compiles a root fragment against this store's schema.
    pub fn build_scope_query(&self, user_query: &str) -> (r: Result<String, CompileError>)
        ensures
            match compiled(self.schema, user_query@) {
                Ok(sql) => r matches Ok(out) && out@ == sql,
                Err(None) => r matches Err(CompileError::RootTableNotFound { fragment }) && fragment@ == user_query@,
                Err(Some(name)) => r matches Err(CompileError::RootTableUnknown { table }) && table@ == name,
            },
    {
        compile_scope_query(&self.schema, user_query)
    }
}

} // verus!
