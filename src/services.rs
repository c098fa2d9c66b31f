//! The keys through which the server and the store talk about one program:
//! where the program is kept, the input series, the output series and the
//! output's notification channel.

use vstd::prelude::*;
use vstd::string::StringExecFns;
use crate::ids::{is_generated_id, random_id};
use crate::outputs::notification_channel;

verus! {

/// The length of a program id.
pub const PROGRAM_ID_LEN: usize = 5;

/// The keys of one program.
pub struct ProgramKeys {
    pub program_key: String,
    pub input_key: String,
    pub output_key: String,
    pub output_pubsub_key: String,
}

/// The keys of the program `id`: `p:<id>`, `p:i:<id>`, `p:o:<id>`, and the
/// output's notification channel `p:o:<id>:ps`.
pub open spec fn keys_of(id: Seq<char>, k: ProgramKeys) -> bool {
    &&& k.program_key@ == "p:"@ + id
    &&& k.input_key@ == "p:i:"@ + id
    &&& k.output_key@ == "p:o:"@ + id
    &&& k.output_pubsub_key@ == "p:o:"@ + id + ":ps"@
}

/// The keys of the program `id`.
pub fn program_keys(id: &String) -> (r: ProgramKeys)
    ensures
        keys_of(id@, r),
{
    let program_key = String::from_str("p:").concat(id.as_str());
    let input_key = String::from_str("p:i:").concat(id.as_str());
    let output_key = String::from_str("p:o:").concat(id.as_str());
    let output_pubsub_key = notification_channel(&output_key);
    ProgramKeys { program_key, input_key, output_key, output_pubsub_key }
}

/// The keys of a program under a new random id.
pub fn new_program_keys() -> (r: ProgramKeys)
    ensures
        exists|id: Seq<char>| is_generated_id(id, PROGRAM_ID_LEN as nat) && keys_of(id, r),
{
    let id = random_id(PROGRAM_ID_LEN);
    program_keys(&id)
}

/// The keys of a program with its series under the program's own key:
/// `p:<id>`, then the input and output series `p:<id>:i` and `p:<id>:o`.
pub fn service_keys(id: &String) -> (r: (String, String, String))
    ensures
        r.0@ == "p:"@ + id@,
        r.1@ == "p:"@ + id@ + ":i"@,
        r.2@ == "p:"@ + id@ + ":o"@,
{
    let program_key = String::from_str("p:").concat(id.as_str());
    let input_key = program_key.clone().concat(":i");
    let output_key = program_key.clone().concat(":o");
    (program_key, input_key, output_key)
}

/// Receives the result announcements published on one channel of the store.
pub struct PullRedisService {
    url: String,
    output_pubsub_key: String,
}

impl PullRedisService {
    pub closed spec fn spec_url(&self) -> Seq<char> {
        self.url@
    }

    pub closed spec fn spec_output_pubsub_key(&self) -> Seq<char> {
        self.output_pubsub_key@
    }

    pub fn new(url: String, output_pubsub_key: String) -> (r: Self)
        ensures
            r.spec_url() == url@,
            r.spec_output_pubsub_key() == output_pubsub_key@,
    {
        PullRedisService { url, output_pubsub_key }
    }

    /// The store's address.
    pub fn url(&self) -> (r: &String)
        ensures
            r@ == self.spec_url(),
    {
        &self.url
    }

    /// The channel listened to.
    pub fn output_pubsub_key(&self) -> (r: &String)
        ensures
            r@ == self.spec_output_pubsub_key(),
    {
        &self.output_pubsub_key
    }
}

} // verus!
