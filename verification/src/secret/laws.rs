//! Who may go on.

use crate::secret;
use vstd::prelude::*;

verus! {

/// Without a secret everyone may go on; with one, who provides the same text, and
/// no one else. What is said to the others.
pub proof fn law_secrets(expected: &str, value: &str)
    ensures
        secret::knows(None, None),
        secret::knows(None, Some(value)),
        !secret::knows(Some(expected), None),
        secret::knows(Some(expected), Some(value)) <==> value@ == expected@,
        secret::WRONG_SECRET@
            == "missing or incorrect secret (MEMORIA_MCP_SECRET is configured on this server; see ADR-38)"@,
{
}

} // verus!
