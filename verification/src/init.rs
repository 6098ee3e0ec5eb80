//! The start of the supervisor: from task definitions to the context map.

use crate::config::yaml::TaskConfigYaml;
use crate::config::{assembled, converted, read_config, TaskConfig};
use crate::task::{initial_map, ContextMap};
use vstd::prelude::*;

verus! {

/// The supervisor before it runs: the built-in tasks that it brings along.
pub struct Alfad {
    pub builtin: Vec<TaskConfigYaml>,
}

impl Alfad {
    /// Makes the context map that the supervisor starts with: one context
    /// for each task of the compiled configuration, or, where there is none,
    /// of the definitions that were read, together with the built-in tasks.
    /// The places of the map are in the order in which the tasks are
    /// spawned.
    pub fn run(self, compiled: Option<Vec<TaskConfig>>, parsed: Vec<TaskConfigYaml>) -> (r: ContextMap)
        ensures
            r@ == initial_map(
                match compiled {
                    Some(configs) => configs.deep_view() + converted(self.builtin.deep_view()),
                    None => assembled(parsed.deep_view(), self.builtin.deep_view()),
                },
            ),
    {
        let configs = read_config(compiled, parsed, self.builtin);
        ContextMap::new(configs)
    }
}

} // verus!
