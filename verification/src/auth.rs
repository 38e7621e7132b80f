//! Authorization: token claims, namespace grants and hierarchical name matching.

use vstd::prelude::*;

use crate::config::Config;
use crate::error::AppError;

verus! {

/// The character which separates the segments of a hierarchical object name.
pub const HIERARCHY_TOKEN: char = '.';

/// Collect the characters of a string slice.
pub fn chars_of(s: &str) -> (v: Vec<char>)
    ensures
        v@ == s@,
{
    let mut v: Vec<char> = Vec::new();
    for c in it: s.chars()
        invariant
            v@ == it.seq().take(it.index() as int),
    {
        v.push(c);
    }
    v
}

/// Compare two character vectors for equality.
pub fn chars_eq(a: &Vec<char>, b: &Vec<char>) -> (eq: bool)
    ensures
        eq == (a@ == b@),
{
    if a.len() != b.len() {
        return false;
    }
    let mut i: usize = 0;
    while i < a.len()
        invariant
            i <= a.len(),
            a.len() == b.len(),
            forall|j: int| 0 <= j < i ==> a@[j] == b@[j],
        decreases a.len() - i,
    {
        if a[i] != b[i] {
            return false;
        }
        i = i + 1;
    }
    assert(a@ =~= b@);
    true
}

//////////////////////////////////////////////////////////////////////////////////////////////////
// Name matching /////////////////////////////////////////////////////////////////////////////////

/// Split a hierarchical name into its segments.
///
/// Every separator closes a segment, so a name with `k` separators has `k + 1` segments, some of
/// which may be empty.
pub open spec fn split_name(name: Seq<char>) -> Seq<Seq<char>>
    decreases name.len(),
{
    if name.len() == 0 {
        seq![Seq::<char>::empty()]
    } else {
        let prefix = split_name(name.drop_last());
        if name.last() == HIERARCHY_TOKEN {
            prefix.push(Seq::<char>::empty())
        } else {
            prefix.update(prefix.len() - 1, prefix.last().push(name.last()))
        }
    }
}

/// Splitting always yields at least one segment.
pub proof fn lemma_split_name_nonempty(name: Seq<char>)
    ensures
        split_name(name).len() >= 1,
    decreases name.len(),
{
    if name.len() > 0 {
        lemma_split_name_nonempty(name.drop_last());
    }
}

/// Split a name into its segments.
pub fn split_name_exec(name: &str) -> (segs: Vec<Vec<char>>)
    ensures
        segs@.map_values(|s: Vec<char>| s@) == split_name(name@),
{
    let chars = chars_of(name);
    let mut done: Vec<Vec<char>> = Vec::new();
    let mut cur: Vec<char> = Vec::new();
    let mut i: usize = 0;
    while i < chars.len()
        invariant
            i <= chars.len(),
            chars@ == name@,
            done@.map_values(|s: Vec<char>| s@).push(cur@) == split_name(chars@.take(i as int)),
        decreases chars.len() - i,
    {
        proof {
            lemma_split_name_nonempty(chars@.take(i as int));
            assert(chars@.take(i as int + 1).drop_last() =~= chars@.take(i as int));
        }
        let c = chars[i];
        if c == HIERARCHY_TOKEN {
            let finished = cur;
            done.push(finished);
            cur = Vec::new();
            proof {
                assert(done@.map_values(|s: Vec<char>| s@).push(cur@) =~= split_name(chars@.take(i as int + 1)));
            }
        } else {
            cur.push(c);
            proof {
                assert(done@.map_values(|s: Vec<char>| s@).push(cur@) =~= split_name(chars@.take(i as int + 1)));
            }
        }
        i = i + 1;
    }
    proof {
        assert(chars@.take(chars.len() as int) =~= chars@);
    }
    done.push(cur);
    proof {
        assert(done@.map_values(|s: Vec<char>| s@) =~= split_name(name@));
    }
    done
}

/// A name match segment variant.
#[derive(Clone, Debug)]
pub enum NameMatchSegment {
    /// A match on a literal segment.
    Literal { literal: String },
    /// A wildcard match on a single segment.
    Wild,
    /// A wildcard match on all remaining segments. Does not match if there are no remaining segments.
    Remaining,
}

/// The mathematical form of a name match segment.
pub enum SegmentPattern {
    Literal(Seq<char>),
    Wild,
    Remaining,
}

impl NameMatchSegment {
    pub open spec fn pattern(&self) -> SegmentPattern {
        match self {
            NameMatchSegment::Literal { literal } => SegmentPattern::Literal(literal@),
            NameMatchSegment::Wild => SegmentPattern::Wild,
            NameMatchSegment::Remaining => SegmentPattern::Remaining,
        }
    }
}

/// Whether the patterns, from position `i` onward, match the segments from position `i` onward.
///
/// A literal matches an equal segment, a wildcard matches any single segment, and a `Remaining`
/// pattern matches all segments from its position to the end, provided there is at least one. A
/// pattern list that is longer than the segment list, without reaching a `Remaining` pattern, does
/// not match.
pub open spec fn patterns_match_from(pats: Seq<SegmentPattern>, segs: Seq<Seq<char>>, i: int) -> bool
    decreases segs.len() - i,
{
    if i < 0 || i >= segs.len() {
        pats.len() <= segs.len()
    } else if i >= pats.len() {
        false
    } else {
        match pats[i] {
            SegmentPattern::Literal(l) => l == segs[i] && patterns_match_from(pats, segs, i + 1),
            SegmentPattern::Wild => patterns_match_from(pats, segs, i + 1),
            SegmentPattern::Remaining => true,
        }
    }
}

/// Whether a pattern list matches a whole name.
pub open spec fn patterns_match_name(pats: Seq<SegmentPattern>, name: Seq<char>) -> bool {
    patterns_match_from(pats, split_name(name), 0)
}

/// A fully qualified matcher over a hierarchical name specification.
#[derive(Clone, Debug)]
pub struct NameMatcher(pub Vec<NameMatchSegment>);

impl NameMatcher {
    /// The matcher's patterns.
    pub open spec fn patterns(&self) -> Seq<SegmentPattern> {
        self.0@.map_values(|s: NameMatchSegment| s.pattern())
    }

    /// Whether the given name matches this matcher.
    pub open spec fn spec_has_match(&self, name: Seq<char>) -> bool {
        patterns_match_name(self.patterns(), name)
    }

    /// Test the given object name against this matcher instance.
    pub fn has_match(&self, name: &str) -> (b: bool)
        ensures
            b == self.spec_has_match(name@),
    {
        let segs = split_name_exec(name);
        let ghost pats = self.patterns();
        let ghost ssegs = segs@.map_values(|s: Vec<char>| s@);
        let mut idx: usize = 0;
        while idx < segs.len()
            invariant
                idx <= segs.len(),
                ssegs == split_name(name@),
                ssegs.len() == segs.len(),
                forall|j: int| 0 <= j < segs.len() ==> #[trigger] ssegs[j] == segs@[j]@,
                pats == self.patterns(),
                pats.len() == self.0.len(),
                forall|j: int| 0 <= j < self.0.len() ==> #[trigger] pats[j] == self.0@[j].pattern(),
                patterns_match_from(pats, ssegs, 0) == patterns_match_from(pats, ssegs, idx as int),
            decreases segs.len() - idx,
        {
            if idx >= self.0.len() {
                return false;
            }
            match &self.0[idx] {
                NameMatchSegment::Literal { literal } => {
                    let lit = chars_of(literal.as_str());
                    if !chars_eq(&lit, &segs[idx]) {
                        return false;
                    }
                },
                NameMatchSegment::Wild => {},
                NameMatchSegment::Remaining => {
                    return true;
                },
            }
            idx = idx + 1;
        }
        self.0.len() <= segs.len()
    }
}

/// A matcher made of `Remaining` alone matches every name.
pub proof fn lemma_remaining_matches_every_name(name: Seq<char>)
    ensures
        patterns_match_name(seq![SegmentPattern::Remaining], name),
{
    lemma_split_name_nonempty(name);
}

/// A matcher made of the literal segments of a name matches that name.
pub proof fn lemma_literal_segments_match_own_name(name: Seq<char>)
    ensures
        patterns_match_name(split_name(name).map_values(|s: Seq<char>| SegmentPattern::Literal(s)), name),
{
    let segs = split_name(name);
    let pats = segs.map_values(|s: Seq<char>| SegmentPattern::Literal(s));
    lemma_literals_match_from(segs, pats, 0);
}

proof fn lemma_literals_match_from(segs: Seq<Seq<char>>, pats: Seq<SegmentPattern>, i: int)
    requires
        0 <= i <= segs.len(),
        pats == segs.map_values(|s: Seq<char>| SegmentPattern::Literal(s)),
    ensures
        patterns_match_from(pats, segs, i),
    decreases segs.len() - i,
{
    if i < segs.len() {
        lemma_literals_match_from(segs, pats, i + 1);
    }
}

/// A matcher of literal segments matches a name only if the name is made of exactly those segments.
pub proof fn lemma_literal_match_is_exact(lits: Seq<Seq<char>>, name: Seq<char>)
    requires
        patterns_match_name(lits.map_values(|s: Seq<char>| SegmentPattern::Literal(s)), name),
    ensures
        split_name(name) == lits,
{
    let segs = split_name(name);
    let pats = lits.map_values(|s: Seq<char>| SegmentPattern::Literal(s));
    lemma_literal_match_is_exact_from(lits, pats, segs, 0);
    assert(segs =~= lits);
}

proof fn lemma_literal_match_is_exact_from(lits: Seq<Seq<char>>, pats: Seq<SegmentPattern>, segs: Seq<Seq<char>>, i: int)
    requires
        0 <= i <= segs.len(),
        i <= pats.len(),
        pats == lits.map_values(|s: Seq<char>| SegmentPattern::Literal(s)),
        patterns_match_from(pats, segs, i),
    ensures
        lits.len() == segs.len(),
        forall|j: int| i <= j < segs.len() ==> lits[j] == segs[j],
    decreases segs.len() - i,
{
    if i < segs.len() {
        assert(pats[i] == SegmentPattern::Literal(lits[i]));
        lemma_literal_match_is_exact_from(lits, pats, segs, i + 1);
    }
}

/// A matcher of `k` wildcards matches exactly the names with `k` segments.
pub proof fn lemma_wildcards_match_segment_count(k: nat, name: Seq<char>)
    ensures
        patterns_match_name(Seq::new(k, |i: int| SegmentPattern::Wild), name) <==> split_name(name).len() == k,
{
    let pats = Seq::new(k, |i: int| SegmentPattern::Wild);
    let segs = split_name(name);
    lemma_wildcards_from(pats, segs, 0);
}

proof fn lemma_wildcards_from(pats: Seq<SegmentPattern>, segs: Seq<Seq<char>>, i: int)
    requires
        0 <= i <= segs.len(),
        i <= pats.len(),
        forall|j: int| 0 <= j < pats.len() ==> pats[j] == SegmentPattern::Wild,
    ensures
        patterns_match_from(pats, segs, i) <==> pats.len() == segs.len(),
    decreases segs.len() - i,
{
    if i < segs.len() && i < pats.len() {
        lemma_wildcards_from(pats, segs, i + 1);
    }
}

//////////////////////////////////////////////////////////////////////////////////////////////////
// Claims ////////////////////////////////////////////////////////////////////////////////////////

/// A permissions grant on a set of matching endpoints.
#[derive(Clone, Debug)]
pub struct EndpointGrant {
    pub matcher: NameMatcher,
    pub access: Access,
}

/// A permissions grant on a set of matching streams.
#[derive(Clone, Debug)]
pub struct StreamGrant {
    pub matcher: NameMatcher,
    pub access: Access,
}

/// An enumeration of possible access levels.
#[derive(Clone, Copy, Debug, PartialEq, Eq, Structural)]
pub enum Access {
    Pub,
    Sub,
    All,
}

impl Access {
    /// Whether this access level allows publishing.
    pub open spec fn spec_can_publish(self) -> bool {
        self is All || self is Pub
    }

    /// Check if this access level represents a sufficient grant to be able to publish.
    pub fn can_publish(&self) -> (b: bool)
        ensures
            b == self.spec_can_publish(),
    {
        match self {
            Access::All | Access::Pub => true,
            Access::Sub => false,
        }
    }
}

/// A permissions grant on a set of resources of a specific namespace.
///
/// Pipeline permissions are evaluated purely in terms of stream permissions.
#[derive(Clone, Debug)]
pub enum NamespaceGrant {
    /// A grant of full permissions on the target namespace.
    Full {
        /// The namespace to which this grant applies.
        namespace: String,
    },
    /// A grant of limited access to specific resources within the target namespace.
    Limited {
        /// The namespace to which this grant applies.
        namespace: String,
        /// Permissions granted on the namespace's ephemeral messaging exchange.
        messaging: Option<Access>,
        /// Permissions granted on RPC endpoints.
        endpoints: Option<Vec<EndpointGrant>>,
        /// Permissions granted on streams.
        streams: Option<Vec<StreamGrant>>,
        /// Permissions to modify the schema of the namespace.
        schema: bool,
    },
}

impl NamespaceGrant {
    /// Whether this grant allows publishing to the named stream of the given namespace.
    pub open spec fn allows_stream_pub(&self, ns: Seq<char>, stream: Seq<char>) -> bool {
        match self {
            NamespaceGrant::Full { namespace } => namespace@ == ns,
            NamespaceGrant::Limited { namespace, streams, .. } => {
                &&& namespace@ == ns
                &&& match streams {
                    Some(grants) => exists|i: int|
                        0 <= i < grants.len() && #[trigger] grants@[i].matcher.spec_has_match(stream)
                            && grants@[i].access.spec_can_publish(),
                    None => false,
                }
            },
        }
    }

    /// Whether this grant allows schema mutations on the given namespace.
    pub open spec fn allows_schema(&self, ns: Seq<char>) -> bool {
        match self {
            NamespaceGrant::Full { namespace } => namespace@ == ns,
            NamespaceGrant::Limited { namespace, schema, .. } => namespace@ == ns && *schema,
        }
    }

    fn grants_stream_pub(&self, ns: &str, stream: &str) -> (b: bool)
        ensures
            b == self.allows_stream_pub(ns@, stream@),
    {
        match self {
            NamespaceGrant::Full { namespace } => str_eq(namespace.as_str(), ns),
            NamespaceGrant::Limited { namespace, streams, .. } => {
                if !str_eq(namespace.as_str(), ns) {
                    return false;
                }
                match streams {
                    Some(grants) => {
                        let mut i: usize = 0;
                        while i < grants.len()
                            invariant
                                i <= grants.len(),
                                namespace@ == ns@,
                                *self == (NamespaceGrant::Limited { namespace: *namespace, messaging: self->Limited_messaging, endpoints: self->Limited_endpoints, streams: Some(*grants), schema: self->Limited_schema }),
                                forall|j: int| 0 <= j < i ==> !(#[trigger] grants@[j].matcher.spec_has_match(stream@)
                                    && grants@[j].access.spec_can_publish()),
                            decreases grants.len() - i,
                        {
                            if grants[i].matcher.has_match(stream) && grants[i].access.can_publish() {
                                assert(grants@[i as int].matcher.spec_has_match(stream@));
                                return true;
                            }
                            i = i + 1;
                        }
                        false
                    },
                    None => false,
                }
            },
        }
    }

    fn grants_schema(&self, ns: &str) -> (b: bool)
        ensures
            b == self.allows_schema(ns@),
    {
        match self {
            NamespaceGrant::Full { namespace } => str_eq(namespace.as_str(), ns),
            NamespaceGrant::Limited { namespace, schema, .. } => {
                if !str_eq(namespace.as_str(), ns) {
                    false
                } else {
                    *schema
                }
            },
        }
    }
}

/// Compare two string slices for equality.
pub fn str_eq(a: &str, b: &str) -> (eq: bool)
    ensures
        eq == (a@ == b@),
{
    let va = chars_of(a);
    let vb = chars_of(b);
    chars_eq(&va, &vb)
}

/// Versioned permission claims.
#[derive(Clone, Debug)]
pub enum ClaimsV1 {
    /// A permissions grant on all resources in the system.
    All,
    /// A set of permissions granted on namespace scoped resources.
    Namespaced(Vec<NamespaceGrant>),
    /// A permissions grant on only the cluster metrics system.
    Metrics,
}

/// A permissions claim of a token.
#[derive(Clone, Debug)]
pub enum Claims {
    V1(ClaimsV1),
}

impl Claims {
    /// Whether these claims allow publishing to the given stream.
    pub open spec fn permits_stream_pub(&self, ns: Seq<char>, stream: Seq<char>) -> bool {
        match self {
            Claims::V1(ClaimsV1::All) => true,
            Claims::V1(ClaimsV1::Namespaced(grants)) => exists|i: int|
                0 <= i < grants.len() && #[trigger] grants@[i].allows_stream_pub(ns, stream),
            Claims::V1(ClaimsV1::Metrics) => false,
        }
    }

    /// Whether these claims allow schema mutations on the given namespace.
    pub open spec fn permits_schema(&self, ns: Seq<char>) -> bool {
        match self {
            Claims::V1(ClaimsV1::All) => true,
            Claims::V1(ClaimsV1::Namespaced(grants)) => exists|i: int|
                0 <= i < grants.len() && #[trigger] grants@[i].allows_schema(ns),
            Claims::V1(ClaimsV1::Metrics) => false,
        }
    }

    /// Ensure these claims are sufficient for publishing to the given stream.
    pub fn check_stream_pub_auth(&self, ns: &str, stream: &str) -> (res: Result<(), AppError>)
        ensures
            res is Ok <==> self.permits_stream_pub(ns@, stream@),
            res is Err ==> res->Err_0 is Unauthorized,
    {
        match self {
            Claims::V1(ClaimsV1::All) => Ok(()),
            Claims::V1(ClaimsV1::Namespaced(grants)) => {
                let mut i: usize = 0;
                while i < grants.len()
                    invariant
                        i <= grants.len(),
                        *self == Claims::V1(ClaimsV1::Namespaced(*grants)),
                        forall|j: int| 0 <= j < i ==> !#[trigger] grants@[j].allows_stream_pub(ns@, stream@),
                    decreases grants.len() - i,
                {
                    if grants[i].grants_stream_pub(ns, stream) {
                        assert(grants@[i as int].allows_stream_pub(ns@, stream@));
                        assert(self->V1_0->Namespaced_0@[i as int].allows_stream_pub(ns@, stream@));
                        assert(self.permits_stream_pub(ns@, stream@));
                        return Ok(());
                    }
                    i = i + 1;
                }
                Err(AppError::Unauthorized)
            },
            Claims::V1(ClaimsV1::Metrics) => Err(AppError::Unauthorized),
        }
    }

    /// Ensure these claims are sufficient for schema mutations on the target namespace.
    pub fn check_schema_auth(&self, ns: &str) -> (res: Result<(), AppError>)
        ensures
            res is Ok <==> self.permits_schema(ns@),
            res is Err ==> res->Err_0 is Unauthorized,
    {
        match self {
            Claims::V1(ClaimsV1::All) => Ok(()),
            Claims::V1(ClaimsV1::Namespaced(grants)) => {
                let mut i: usize = 0;
                while i < grants.len()
                    invariant
                        i <= grants.len(),
                        *self == Claims::V1(ClaimsV1::Namespaced(*grants)),
                        forall|j: int| 0 <= j < i ==> !#[trigger] grants@[j].allows_schema(ns@),
                    decreases grants.len() - i,
                {
                    if grants[i].grants_schema(ns) {
                        assert(grants@[i as int].allows_schema(ns@));
                        assert(self->V1_0->Namespaced_0@[i as int].allows_schema(ns@));
                        return Ok(());
                    }
                    i = i + 1;
                }
                Err(AppError::Unauthorized)
            },
            Claims::V1(ClaimsV1::Metrics) => Err(AppError::Unauthorized),
        }
    }
}

/// A full grant on a namespace permits both publishing to any of its streams and schema changes.
pub proof fn lemma_full_grant_permits_namespace(grants: Vec<NamespaceGrant>, i: int, stream: Seq<char>)
    requires
        0 <= i < grants.len(),
        grants@[i] is Full,
    ensures
        ({
            let ns = grants@[i]->Full_namespace@;
            let claims = Claims::V1(ClaimsV1::Namespaced(grants));
            claims.permits_stream_pub(ns, stream) && claims.permits_schema(ns)
        }),
{
    let ns = grants@[i]->Full_namespace@;
    assert(grants@[i].allows_stream_pub(ns, stream));
    assert(grants@[i].allows_schema(ns));
    let claims = Claims::V1(ClaimsV1::Namespaced(grants));
    assert(claims->V1_0 is Namespaced);
    assert(claims->V1_0->Namespaced_0 == grants);
}

/// Adding a grant never revokes a permission that a set of grants already gave.
pub proof fn lemma_added_grant_keeps_permissions(
    grants: Seq<NamespaceGrant>,
    extra: NamespaceGrant,
    ns: Seq<char>,
    stream: Seq<char>,
)
    ensures
        (exists|i: int| 0 <= i < grants.len() && #[trigger] grants[i].allows_stream_pub(ns, stream))
            ==> (exists|i: int| 0 <= i < grants.push(extra).len() && #[trigger] grants.push(extra)[i].allows_stream_pub(ns, stream)),
        (exists|i: int| 0 <= i < grants.len() && #[trigger] grants[i].allows_schema(ns))
            ==> (exists|i: int| 0 <= i < grants.push(extra).len() && #[trigger] grants.push(extra)[i].allows_schema(ns)),
{
    if exists|i: int| 0 <= i < grants.len() && #[trigger] grants[i].allows_stream_pub(ns, stream) {
        let i = choose|i: int| 0 <= i < grants.len() && #[trigger] grants[i].allows_stream_pub(ns, stream);
        assert(grants.push(extra)[i] == grants[i]);
    }
    if exists|i: int| 0 <= i < grants.len() && #[trigger] grants[i].allows_schema(ns) {
        let i = choose|i: int| 0 <= i < grants.len() && #[trigger] grants[i].allows_schema(ns);
        assert(grants.push(extra)[i] == grants[i]);
    }
}

/// A limited grant permits publishing only to streams which one of its stream grants both
/// matches and opens for publishing; a grant of another namespace never permits anything.
pub proof fn lemma_limited_grant_requires_matching_pub_grant(g: NamespaceGrant, ns: Seq<char>, stream: Seq<char>)
    requires
        g is Limited,
        g.allows_stream_pub(ns, stream),
    ensures
        g->Limited_namespace@ == ns,
        g->Limited_streams is Some,
        exists|i: int| 0 <= i < g->Limited_streams->0.len()
            && (#[trigger] g->Limited_streams->0@[i]).matcher.spec_has_match(stream)
            && g->Limited_streams->0@[i].access.spec_can_publish(),
{
}

//////////////////////////////////////////////////////////////////////////////////////////////////
// Credentials ///////////////////////////////////////////////////////////////////////////////////

/// Whether a byte is visible ASCII (or a tab), the bytes which a header may hold to be read as text.
pub open spec fn is_visible_ascii(b: u8) -> bool {
    b == 9 || (32 <= b && b < 127)
}

/// The prefix which bearer token credentials begin with: `bearer `.
pub open spec fn bearer_prefix() -> Seq<u8> {
    seq![98u8, 101u8, 97u8, 114u8, 101u8, 114u8, 32u8]
}

/// The reasons a credentials header can be refused.
#[derive(Clone, Copy, Debug, PartialEq, Eq, Structural)]
pub enum CredentialsError {
    /// The header holds bytes other than visible ASCII.
    NotAString,
    /// The header does not begin with `bearer `.
    MissingBearerPrefix,
    /// The header holds no token after its prefix.
    NoToken,
}

impl CredentialsError {
    pub open spec fn spec_message(self) -> Seq<char> {
        match self {
            CredentialsError::NotAString => "invalid credentials provided, must be a valid string value"@,
            CredentialsError::MissingBearerPrefix => "invalid credentials provided, token credentials header must begin with 'bearer '"@,
            CredentialsError::NoToken => "invalid credentials provided, no token detected"@,
        }
    }

    /// The human readable message of this error.
    pub fn message(&self) -> (msg: String)
        ensures
            msg@ == self.spec_message(),
    {
        match self {
            CredentialsError::NotAString => String::from_str("invalid credentials provided, must be a valid string value"),
            CredentialsError::MissingBearerPrefix => String::from_str(
                "invalid credentials provided, token credentials header must begin with 'bearer '",
            ),
            CredentialsError::NoToken => String::from_str("invalid credentials provided, no token detected"),
        }
    }
}

/// A token credentials set, containing the ID of the token and other associated data.
pub struct TokenCredentials {
    /// The ID of this token.
    pub id: u64,
    /// The raw value of the auth header.
    pub auth_header: Vec<u8>,
}

impl TokenCredentials {
    /// The outcome of reading credentials from the given header bytes.
    pub open spec fn spec_from_auth_header(header: Seq<u8>) -> Result<u64, CredentialsError> {
        if !(forall|i: int| 0 <= i < header.len() ==> is_visible_ascii(#[trigger] header[i])) {
            Err(CredentialsError::NotAString)
        } else if !(header.len() >= 7 && header.take(7) == bearer_prefix()) {
            Err(CredentialsError::MissingBearerPrefix)
        } else if !(header.len() > 7) {
            Err(CredentialsError::NoToken)
        } else {
            Ok(0)
        }
    }

    /// Extract a token from the given header value bytes.
    pub fn from_auth_header(header: Vec<u8>, _config: &Config) -> (res: Result<Self, CredentialsError>)
        ensures
            match (res, Self::spec_from_auth_header(header@)) {
                (Ok(creds), Ok(id)) => creds.id == id && creds.auth_header@ == header@,
                (Err(e), Err(f)) => e == f,
                _ => false,
            },
    {
        let mut i: usize = 0;
        while i < header.len()
            invariant
                i <= header.len(),
                forall|j: int| 0 <= j < i ==> is_visible_ascii(#[trigger] header@[j]),
            decreases header.len() - i,
        {
            let b = header[i];
            if !(b == 9 || (32 <= b && b < 127)) {
                return Err(CredentialsError::NotAString);
            }
            i = i + 1;
        }
        if header.len() < 7 {
            return Err(CredentialsError::MissingBearerPrefix);
        }
        let has_prefix = header[0] == 98u8 && header[1] == 101u8 && header[2] == 97u8 && header[3] == 114u8
            && header[4] == 101u8 && header[5] == 114u8 && header[6] == 32u8;
        if !has_prefix {
            proof {
                if header@.take(7) == bearer_prefix() {
                    assert(header@.take(7)[0] == header@[0]);
                    assert(header@.take(7)[1] == header@[1]);
                    assert(header@.take(7)[2] == header@[2]);
                    assert(header@.take(7)[3] == header@[3]);
                    assert(header@.take(7)[4] == header@[4]);
                    assert(header@.take(7)[5] == header@[5]);
                    assert(header@.take(7)[6] == header@[6]);
                }
            }
            return Err(CredentialsError::MissingBearerPrefix);
        }
        proof {
            assert(header@.take(7) =~= bearer_prefix());
        }
        if header.len() <= 7 {
            return Err(CredentialsError::NoToken);
        }
        Ok(TokenCredentials { id: 0, auth_header: header })
    }
}

//////////////////////////////////////////////////////////////////////////////////////////////////
// Users /////////////////////////////////////////////////////////////////////////////////////////

/// A system user's role.
#[derive(Clone, Copy, Debug, PartialEq, Eq, Structural)]
pub enum UserRole {
    /// Full control over the cluster and all resources; there is only ever one root user.
    Root,
    /// Full control over the cluster and all resources.
    Admin,
    /// A user with view-only permissions on cluster resources.
    Viewer,
}

/// A system user.
#[derive(Clone, Debug)]
pub struct User {
    /// The user's name.
    pub name: String,
    /// The user's role.
    pub role: UserRole,
}

/// Schema rights on a namespace come only from claims over everything, or from a grant on that
/// very namespace: a grant on another namespace never gives them.
pub proof fn lemma_schema_rights_need_own_namespace(claims: Claims, ns: Seq<char>)
    ensures
        claims.permits_schema(ns) ==> claims == Claims::V1(ClaimsV1::All) || (claims->V1_0 is Namespaced && exists|i: int|
            0 <= i < claims->V1_0->Namespaced_0@.len() && match #[trigger] claims->V1_0->Namespaced_0@[i] {
                NamespaceGrant::Full { namespace } => namespace@ == ns,
                NamespaceGrant::Limited { namespace, .. } => namespace@ == ns,
            }),
{
    match claims {
        Claims::V1(ClaimsV1::Namespaced(grants)) => {
            if claims.permits_schema(ns) {
                let i = choose|i: int| 0 <= i < grants.len() && #[trigger] grants@[i].allows_schema(ns);
                assert(claims->V1_0->Namespaced_0@[i] == grants@[i]);
            }
        },
        _ => {},
    }
}

/// A full grant on a namespace, or a limited one carrying the schema flag, gives schema rights
/// on that namespace; a limited grant without the flag adds none.
pub proof fn lemma_schema_rights_from_grants(grants: Vec<NamespaceGrant>, i: int, ns: Seq<char>)
    requires
        0 <= i < grants.len(),
    ensures
        (grants@[i] matches NamespaceGrant::Full { namespace } && namespace@ == ns)
            ==> Claims::V1(ClaimsV1::Namespaced(grants)).permits_schema(ns),
        (grants@[i] matches NamespaceGrant::Limited { namespace, schema, .. } && namespace@ == ns && schema)
            ==> Claims::V1(ClaimsV1::Namespaced(grants)).permits_schema(ns),
        (grants@[i] matches NamespaceGrant::Limited { schema, .. } && !schema)
            ==> !grants@[i].allows_schema(ns),
{
    let claims = Claims::V1(ClaimsV1::Namespaced(grants));
    assert(claims->V1_0->Namespaced_0 == grants);
    if grants@[i].allows_schema(ns) {
        assert(claims.permits_schema(ns));
    }
}

} // verus!
