//! Models behind a hosted chat-completion service.

use vstd::prelude::*;

verus! {

/// A model that is reached over the network.
pub struct ModelConfig {
    /// The model's name at the service. It also names the model in the
    /// results.
    pub name: String,
    /// The address under which the service is reached.
    pub api_base_url: String,
    /// Whether the run leaves this model out.
    pub skip: bool,
}

/// The address of the service where a configuration names none.
pub open spec fn default_base() -> Seq<char> {
    "https://api.openai.com/v1"@
}

/// Reads `async_openai::config::OPENAI_API_BASE`, the address that the client
/// uses where no other is set. The claim is that the constant holds the
/// address that [`default_base`] spells out.
#[verifier::external_body]
fn default_api_base_url() -> (url: String)
    ensures
        url@ == default_base(),
{
    async_openai::config::OPENAI_API_BASE.to_string()
}

impl ModelConfig {
    /// A configuration for the model `name`. Without an address of its own it
    /// is reached at the service's default address.
    pub fn new(name: String, api_base_url: Option<String>, skip: bool) -> (config: ModelConfig)
        ensures
            config.name@ == name@,
            config.skip == skip,
            config.api_base_url@ == match api_base_url {
                Some(url) => url@,
                None => default_base(),
            },
    {
        let api_base_url = match api_base_url {
            Some(url) => url,
            None => default_api_base_url(),
        };
        ModelConfig { name, api_base_url, skip }
    }
}

/// The text that one chunk of a streamed answer brings: what its choices
/// hold, one after the other. A choice without content brings nothing.
pub open spec fn chunk_text(contents: Seq<Option<Seq<char>>>) -> Seq<char>
    decreases contents.len(),
{
    if contents.len() == 0 {
        Seq::empty()
    } else {
        chunk_text(contents.drop_last()) + match contents.last() {
            Some(text) => text,
            None => Seq::empty(),
        }
    }
}

/// Takes one chunk of a streamed answer into the answer gathered so far.
/// `contents` holds what each choice of the chunk brought. The text that the
/// chunk added comes back, for whoever watches the answer grow.
pub fn absorb(answer: &mut String, contents: &Vec<Option<String>>) -> (fresh: String)
    ensures
        fresh@ == chunk_text(contents.deep_view()),
        final(answer)@ == old(answer)@ + fresh@,
{
    let mut fresh = String::new();
    let mut i: usize = 0;
    while i < contents.len()
        invariant
            i <= contents.len(),
            fresh@ == chunk_text(contents.deep_view().take(i as int)),
        decreases contents.len() - i,
    {
        proof {
            let upto = contents.deep_view().take(i + 1);
            assert(upto.drop_last() =~= contents.deep_view().take(i as int));
        }
        match &contents[i] {
            Some(text) => {
                fresh.append(text.as_str());
            },
            None => {},
        }
        i += 1;
    }
    assert(contents.deep_view().take(i as int) =~= contents.deep_view());
    answer.append(fresh.as_str());
    fresh
}

} // verus!
