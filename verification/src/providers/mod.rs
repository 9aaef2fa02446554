//! The usage backends.

pub mod zai;

use vstd::prelude::*;
use vstd::string::StringExecFns;

use crate::text::{begins_with, same};
use crate::usage::{text_of, UsageResponse, UsageView};

verus! {

/// How the subscription backend names itself: in the configuration and the
/// history, in messages, and as the terminal command that logs in. The program
/// around the library gives the names; nothing here fixes them.
#[derive(Debug)]
pub struct Backend {
    pub id: String,
    pub title: String,
    pub command: String,
}

/// The active usage backend: z.ai, or the subscription backend with tiered plans
/// and a login of its own.
#[derive(Debug)]
pub enum Provider {
    Claude(Backend),
    Zai,
}

impl Provider {
    /// The identifier of a backend.
    pub open spec fn id(self) -> Seq<char> {
        match self {
            Provider::Claude(backend) => backend.id@,
            Provider::Zai => "zai"@,
        }
    }

    /// What a user is told whose credential is missing.
    pub open spec fn hint(self) -> Seq<char> {
        match self {
            Provider::Claude(backend) => backend.title@ + " login not found. Run `"@
                + backend.command@ + "` in Terminal."@,
            Provider::Zai => "Z.ai token not found. Set GLM_API_KEY in ~/.hermes/.env."@,
        }
    }

    /// Stable identifier persisted as the history `provider` column.
    pub fn name(&self) -> (r: &str)
        ensures
            r@ == self.id(),
            *self is Zai ==> r@ == "zai"@,
            *self matches Provider::Claude(backend) ==> r@ == backend.id@,
    {
        match self {
            Provider::Claude(backend) => backend.id.as_str(),
            Provider::Zai => "zai",
        }
    }

    /// Notification hint shown when the credential itself is missing.
    pub fn login_hint(&self) -> (r: String)
        ensures
            r@ == self.hint(),
            *self is Zai ==> r@ == "Z.ai token not found. Set GLM_API_KEY in ~/.hermes/.env."@,
            *self matches Provider::Claude(backend) ==> r@ == backend.title@
                + " login not found. Run `"@ + backend.command@ + "` in Terminal."@,
    {
        match self {
            Provider::Claude(backend) => {
                let mut r = backend.title.clone();
                r.append(" login not found. Run `");
                r.append(backend.command.as_str());
                r.append("` in Terminal.");
                r
            },
            Provider::Zai => "Z.ai token not found. Set GLM_API_KEY in ~/.hermes/.env.".to_owned(),
        }
    }

    /// The backend that a configuration names: the subscription backend if it
    /// names that one, z.ai otherwise.
    pub open spec fn configured(name: Seq<char>, backend: Backend) -> Provider {
        if name == backend.id@ {
            Provider::Claude(backend)
        } else {
            Provider::Zai
        }
    }

    /// The backend that a configuration names.
    pub fn from_config(name: &str, backend: Backend) -> (r: Provider)
        ensures
            r == Provider::configured(name@, backend),
            r is Claude <==> name@ == backend.id@,
            r matches Provider::Claude(b) ==> b == backend,
    {
        if same(name, backend.id.as_str()) {
            Provider::Claude(backend)
        } else {
            Provider::Zai
        }
    }

    /// What is reported when the backend's client cannot be made.
    pub open spec fn client_failure_message(self, reason: Seq<char>) -> Seq<char> {
        match self {
            Provider::Claude(backend) => "Failed to create "@ + backend.title@ + " client: "@
                + reason,
            Provider::Zai => "Failed to create Z.ai client: "@ + reason,
        }
    }

    /// What is reported when the backend's client cannot be made.
    pub fn client_failure(&self, reason: &str) -> (r: String)
        ensures
            r@ == self.client_failure_message(reason@),
            *self is Zai ==> r@ == "Failed to create Z.ai client: "@ + reason@,
            *self matches Provider::Claude(backend) ==> r@ == "Failed to create "@ + backend.title@
                + " client: "@ + reason@,
    {
        match self {
            Provider::Claude(backend) => {
                let mut r = "Failed to create ".to_owned();
                r.append(backend.title.as_str());
                r.append(" client: ");
                r.append(reason);
                r
            },
            Provider::Zai => {
                let mut r = "Failed to create Z.ai client: ".to_owned();
                r.append(reason);
                r
            },
        }
    }

    /// What is reported when the backend's credential cannot be read.
    pub open spec fn credential_failure_message(self, reason: Seq<char>) -> Seq<char> {
        match self {
            Provider::Claude(backend) => "[cred] "@ + backend.title@
                + " credentials unavailable: "@ + reason,
            Provider::Zai => "[cred] Z.ai token not found. Set GLM_API_KEY in ~/.hermes/.env."@,
        }
    }

    /// What is reported when the backend's credential cannot be read. It begins
    /// with `[cred]`, so that the login hint can be told from a transport or API
    /// failure.
    pub fn credential_failure(&self, reason: &str) -> (r: String)
        ensures
            r@ == self.credential_failure_message(reason@),
            is_credential_failure(r@),
            begins_with(r@, "[cred]"@),
            *self is Zai ==> r@
                == "[cred] Z.ai token not found. Set GLM_API_KEY in ~/.hermes/.env."@,
            *self matches Provider::Claude(backend) ==> r@ == "[cred] "@ + backend.title@
                + " credentials unavailable: "@ + reason@,
    {
        proof {
            law_credential_failures_are_marked(*self, reason@);
        }
        match self {
            Provider::Claude(backend) => {
                let mut r = "[cred] ".to_owned();
                r.append(backend.title.as_str());
                r.append(" credentials unavailable: ");
                r.append(reason);
                r
            },
            Provider::Zai =>
                "[cred] Z.ai token not found. Set GLM_API_KEY in ~/.hermes/.env.".to_owned(),
        }
    }
}

/// Whether an error is about a missing credential.
pub open spec fn is_credential_failure(error: Seq<char>) -> bool {
    begins_with(error, "[cred]"@)
}

/// Every credential failure is marked as one, whatever its reason.
pub proof fn law_credential_failures_are_marked(provider: Provider, reason: Seq<char>)
    ensures
        is_credential_failure(provider.credential_failure_message(reason)),
{
    reveal_strlit("[cred]");
    reveal_strlit("[cred] ");
    reveal_strlit("[cred] Z.ai token not found. Set GLM_API_KEY in ~/.hermes/.env.");
    let message = provider.credential_failure_message(reason);
    assert(message.subrange(0, 6) =~= "[cred]"@);
}

/// A backend is configured by the identifier under which its history is kept, as
/// long as the two backends do not share one.
pub proof fn law_identifier_configures(provider: Provider, backend: Backend)
    requires
        backend.id@ != Provider::Zai.id(),
        provider matches Provider::Claude(b) ==> b == backend,
    ensures
        Provider::configured(provider.id(), backend) == provider,
{
}

/// The report of the subscription backend, completed from the credential: the
/// plan and its tier are known there and not to the API.
pub fn with_credential(
    usage: UsageResponse,
    subscription_type: Option<String>,
    rate_limit_tier: Option<String>,
) -> (r: UsageResponse)
    ensures
        r@ == (UsageView {
            subscription_type: text_of(subscription_type),
            rate_limit_tier: text_of(rate_limit_tier),
            ..usage@
        }),
        usage.wf() ==> r.wf(),
{
    let mut r = usage;
    r.subscription_type = subscription_type;
    r.rate_limit_tier = rate_limit_tier;
    r
}

} // verus!
