//! The Token resource: a cluster's authentication and authorization grants.

use vstd::prelude::*;

use crate::auth::str_eq;
use crate::error::AppError;

verus! {

/// A pub/sub access spec.
#[derive(Clone, Debug)]
pub struct PubSubAccess {
    /// Object names for which publishing access is granted.
    pub publish: Vec<String>,
    /// Object names for which subscription access is granted.
    pub sub: Vec<String>,
}

/// The spec of a Token resource.
#[derive(Clone, Debug)]
pub struct TokenSpec {
    /// The cluster to which this token belongs.
    pub cluster: String,
    /// Grant full access to all resources of the cluster; if true, all other values are ignored.
    pub all: bool,
    /// Permissions granted on ephemeral messaging exchanges.
    pub exchanges: PubSubAccess,
    /// Permissions granted on RPC endpoints.
    pub endpoints: PubSubAccess,
    /// Permissions granted on streams.
    pub streams: PubSubAccess,
}

/// The status of a Token resource.
#[derive(Clone, Debug)]
pub struct TokenStatus {
    /// The name of the corresponding secret once created.
    pub secret_name: String,
    /// The ID of the created token.
    pub token_id: String,
}

/// A Token resource.
#[derive(Clone, Debug)]
pub struct Token {
    /// The name of the resource.
    pub name: Option<String>,
    /// The rest of the resource's metadata (labels, annotations, resource version and so on),
    /// encoded so that equal metadata are equal bytes.
    pub metadata: Vec<u8>,
    pub spec: TokenSpec,
    pub status: Option<TokenStatus>,
}

/// Whether a list of names holds the given name.
pub open spec fn names_contain(names: Seq<String>, name: Seq<char>) -> bool {
    exists|i: int| 0 <= i < names.len() && #[trigger] names[i]@ == name
}

fn any_name_eq(names: &Vec<String>, name: &str) -> (b: bool)
    ensures
        b == names_contain(names@, name@),
{
    let mut i: usize = 0;
    while i < names.len()
        invariant
            i <= names.len(),
            forall|j: int| 0 <= j < i ==> names@[j]@ != name@,
        decreases names.len() - i,
    {
        if str_eq(names[i].as_str(), name) {
            assert(names@[i as int]@ == name@);
            return true;
        }
        i = i + 1;
    }
    false
}

impl Token {
    /// Whether this token allows publishing to the given stream.
    pub open spec fn permits_stream_pub(&self, stream: Seq<char>) -> bool {
        self.spec.all || names_contain(self.spec.streams.publish@, stream)
    }

    /// Whether this token allows subscribing to the given stream.
    pub open spec fn permits_stream_sub(&self, stream: Seq<char>) -> bool {
        self.spec.all || names_contain(self.spec.streams.sub@, stream)
    }

    /// Ensure this token is sufficient for publishing to the given stream.
    pub fn check_stream_pub_auth(&self, stream: &str) -> (res: Result<(), AppError>)
        ensures
            res is Ok <==> self.permits_stream_pub(stream@),
            res is Err ==> res->Err_0 is Unauthorized,
    {
        if self.spec.all {
            return Ok(());
        }
        if !any_name_eq(&self.spec.streams.publish, stream) {
            return Err(AppError::Unauthorized);
        }
        Ok(())
    }

    /// Ensure this token is sufficient for subscribing to the given stream.
    pub fn check_stream_sub_auth(&self, stream: &str) -> (res: Result<(), AppError>)
        ensures
            res is Ok <==> self.permits_stream_sub(stream@),
            res is Err ==> res->Err_0 is Unauthorized,
    {
        if self.spec.all {
            return Ok(());
        }
        if !any_name_eq(&self.spec.streams.sub, stream) {
            return Err(AppError::Unauthorized);
        }
        Ok(())
    }
}

/// A token granting everything permits publishing and subscribing to every stream; otherwise
/// publishing and subscribing are granted name by name, independently of one another.
pub proof fn lemma_token_grants(t: Token, stream: Seq<char>)
    ensures
        t.spec.all ==> t.permits_stream_pub(stream) && t.permits_stream_sub(stream),
        !t.spec.all ==> (t.permits_stream_pub(stream) <==> names_contain(t.spec.streams.publish@, stream)),
        !t.spec.all ==> (t.permits_stream_sub(stream) <==> names_contain(t.spec.streams.sub@, stream)),
{
}

//////////////////////////////////////////////////////////////////////////////////////////////////
// Comparison ////////////////////////////////////////////////////////////////////////////////////

/// The mathematical form of a list of names.
pub open spec fn names_view(names: Seq<String>) -> Seq<Seq<char>> {
    names.map_values(|s: String| s@)
}

/// The mathematical form of a pub/sub access spec.
pub open spec fn access_view(a: PubSubAccess) -> (Seq<Seq<char>>, Seq<Seq<char>>) {
    (names_view(a.publish@), names_view(a.sub@))
}

/// The mathematical form of a token's status.
pub open spec fn status_view(s: Option<TokenStatus>) -> Option<(Seq<char>, Seq<char>)> {
    match s {
        Some(st) => Some((st.secret_name@, st.token_id@)),
        None => None,
    }
}

/// The mathematical form of a Token resource.
pub struct TokenView {
    pub name: Option<Seq<char>>,
    pub metadata: Seq<u8>,
    pub cluster: Seq<char>,
    pub all: bool,
    pub exchanges: (Seq<Seq<char>>, Seq<Seq<char>>),
    pub endpoints: (Seq<Seq<char>>, Seq<Seq<char>>),
    pub streams: (Seq<Seq<char>>, Seq<Seq<char>>),
    pub status: Option<(Seq<char>, Seq<char>)>,
}

impl Token {
    pub open spec fn tview(&self) -> TokenView {
        TokenView {
            name: match self.name {
                Some(n) => Some(n@),
                None => None,
            },
            metadata: self.metadata@,
            cluster: self.spec.cluster@,
            all: self.spec.all,
            exchanges: access_view(self.spec.exchanges),
            endpoints: access_view(self.spec.endpoints),
            streams: access_view(self.spec.streams),
            status: status_view(self.status),
        }
    }
}

pub(crate) fn names_eq(a: &Vec<String>, b: &Vec<String>) -> (eq: bool)
    ensures
        eq == (names_view(a@) == names_view(b@)),
{
    if a.len() != b.len() {
        proof {
            assert(names_view(a@).len() != names_view(b@).len());
        }
        return false;
    }
    let mut i: usize = 0;
    while i < a.len()
        invariant
            i <= a.len(),
            a.len() == b.len(),
            forall|j: int| 0 <= j < i ==> a@[j]@ == b@[j]@,
        decreases a.len() - i,
    {
        if !str_eq(a[i].as_str(), b[i].as_str()) {
            proof {
                assert(names_view(a@)[i as int] != names_view(b@)[i as int]);
            }
            return false;
        }
        i = i + 1;
    }
    proof {
        assert(names_view(a@) =~= names_view(b@));
    }
    true
}

pub(crate) fn bytes_eq(a: &Vec<u8>, b: &Vec<u8>) -> (eq: bool)
    ensures
        eq == (a@ == b@),
{
    if a.len() != b.len() {
        return false;
    }
    let mut i: usize = 0;
    while i < a.len()
        invariant
            i <= a.len(),
            a.len() == b.len(),
            forall|j: int| 0 <= j < i ==> a@[j] == b@[j],
        decreases a.len() - i,
    {
        if a[i] != b[i] {
            return false;
        }
        i = i + 1;
    }
    proof {
        assert(a@ =~= b@);
    }
    true
}

fn access_eq(a: &PubSubAccess, b: &PubSubAccess) -> (eq: bool)
    ensures
        eq == (access_view(*a) == access_view(*b)),
{
    names_eq(&a.publish, &b.publish) && names_eq(&a.sub, &b.sub)
}

pub(crate) fn opt_str_eq(a: &Option<String>, b: &Option<String>) -> (eq: bool)
    ensures
        eq == (match (a, b) {
            (Some(x), Some(y)) => x@ == y@,
            (None, None) => true,
            _ => false,
        }),
{
    match (a, b) {
        (Some(x), Some(y)) => str_eq(x.as_str(), y.as_str()),
        (None, None) => true,
        _ => false,
    }
}

impl Token {
    /// Whether two Token resources are the same in every field.
    pub fn same_as(&self, other: &Token) -> (eq: bool)
        ensures
            eq == (self.tview() == other.tview()),
    {
        let status_eq = match (&self.status, &other.status) {
            (Some(x), Some(y)) => str_eq(x.secret_name.as_str(), y.secret_name.as_str())
                && str_eq(x.token_id.as_str(), y.token_id.as_str()),
            (None, None) => true,
            _ => false,
        };
        opt_str_eq(&self.name, &other.name)
            && bytes_eq(&self.metadata, &other.metadata)
            && str_eq(self.spec.cluster.as_str(), other.spec.cluster.as_str())
            && self.spec.all == other.spec.all
            && access_eq(&self.spec.exchanges, &other.spec.exchanges)
            && access_eq(&self.spec.endpoints, &other.spec.endpoints)
            && access_eq(&self.spec.streams, &other.spec.streams)
            && status_eq
    }
}

} // verus!
