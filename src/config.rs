//! The trigger configuration: which words set off which pool of replies.

use vstd::prelude::*;

verus! {

/// One rule: any of `triggers`, seen as a word of a message, is answered
/// with one of `responses`.
#[derive(Clone, Debug)]
pub struct TriggerResponse {
    pub triggers: Vec<String>,
    pub responses: Vec<String>,
}

impl TriggerResponse {
    /// A rule can answer only if it has at least one reply to choose from.
    pub open spec fn well_formed(&self) -> bool {
        self.responses@.len() > 0
    }
}

/// The rules, in the order in which they are tried.
#[derive(Clone, Debug)]
pub struct SlacordConfig {
    pub responses: Vec<TriggerResponse>,
}

/// Why a configuration could not be loaded.
#[derive(Clone, Debug, PartialEq, Eq)]
pub enum ConfigError {
    /// The configuration file could not be read.
    Io(String),
    /// The file's content does not have the expected shape.
    Parse(String),
    /// The rule at this position has no reply to choose from.
    EmptyResponses(usize),
}

impl SlacordConfig {
    /// Every rule has at least one reply.
    pub open spec fn well_formed(&self) -> bool {
        forall|i: int| 0 <= i < self.responses@.len() ==> #[trigger] self.responses@[i].well_formed()
    }

    /// Builds a configuration from its rules, refusing one in which a rule
    /// has no reply: such a rule could never answer. The error names the
    /// first such rule.
    pub fn new(rules: Vec<TriggerResponse>) -> (r: Result<SlacordConfig, ConfigError>)
        ensures
            r is Ok <==> (forall|i: int| 0 <= i < rules@.len() ==> #[trigger] rules@[i].well_formed()),
            r matches Ok(c) ==> c.responses@ == rules@ && c.well_formed(),
            r matches Err(e) ==> exists|i: int|
                #![auto]
                0 <= i < rules@.len() && e == ConfigError::EmptyResponses(i as usize)
                    && !rules@[i].well_formed() && forall|j: int|
                    0 <= j < i ==> #[trigger] rules@[j].well_formed(),
    {
        let mut i: usize = 0;
        while i < rules.len()
            invariant
                i <= rules@.len(),
                forall|j: int| 0 <= j < i ==> #[trigger] rules@[j].well_formed(),
            decreases rules@.len() - i,
        {
            if rules[i].responses.len() == 0 {
                assert(!rules@[i as int].well_formed());
                return Err(ConfigError::EmptyResponses(i));
            }
            i += 1;
        }
        Ok(SlacordConfig { responses: rules })
    }
}

} // verus!
