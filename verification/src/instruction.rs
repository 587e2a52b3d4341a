//! Session instruction JSON model.

use vstd::prelude::*;
use crate::error::Result;
use crate::render;
use crate::render::{write_array, write_bool, write_member, write_object, write_string};
use crate::text;
use crate::text::as_str_opt;

verus! {

/// A scope rule inside `SessionScope::scope_specification`.
#[derive(Debug, Clone, PartialEq, Eq)]
pub struct ScopeRule {
    /// "include" or "exclude".
    pub rule_type: String,
    /// Optional domain the rule applies to.
    pub domain: Option<String>,
    /// Optional path the rule applies to.
    pub path: Option<String>,
}

/// What a [`ScopeRule`] says.
pub struct RuleView {
    pub rule_type: Seq<char>,
    pub domain: Option<Seq<char>>,
    pub path: Option<Seq<char>>,
}

impl View for ScopeRule {
    type V = RuleView;

    open spec fn view(&self) -> RuleView {
        RuleView {
            rule_type: self.rule_type@,
            domain: text::opt_view(self.domain),
            path: text::opt_view(self.path),
        }
    }
}

impl ScopeRule {
    /// Create an "include" rule.
    pub fn include_rule(domain: Option<String>, path: Option<String>) -> (r: Self)
        ensures
            r@ == (RuleView {
                rule_type: "include"@,
                domain: text::opt_view(domain),
                path: text::opt_view(path),
            }),
    {
        ScopeRule { rule_type: "include".to_owned(), domain, path }
    }

    /// Create an "exclude" rule.
    pub fn exclude(domain: Option<String>, path: Option<String>) -> (r: Self)
        ensures
            r@ == (RuleView {
                rule_type: "exclude"@,
                domain: text::opt_view(domain),
                path: text::opt_view(path),
            }),
    {
        ScopeRule { rule_type: "exclude".to_owned(), domain, path }
    }
}

/// Which requests carry session credentials.
#[derive(Debug, Clone, PartialEq, Eq)]
pub struct SessionScope {
    /// Session origin. Serialized as `origin`.
    pub origin: Option<String>,
    /// Whether all subdomains/sites are included.
    pub include_site: bool,
    /// Fine-grained include/exclude rules.
    pub scope_specification: Vec<ScopeRule>,
}

/// What a [`SessionScope`] says.
pub struct ScopeView {
    pub origin: Option<Seq<char>>,
    pub include_site: bool,
    pub scope_specification: Seq<RuleView>,
}

impl View for SessionScope {
    type V = ScopeView;

    open spec fn view(&self) -> ScopeView {
        ScopeView {
            origin: text::opt_view(self.origin),
            include_site: self.include_site,
            scope_specification: self.scope_specification@.map_values(|r: ScopeRule| r@),
        }
    }
}

/// The scope without origin, sites and rules.
pub open spec fn default_scope() -> ScopeView {
    ScopeView { origin: None, include_site: false, scope_specification: Seq::empty() }
}

impl Default for SessionScope {
    fn default() -> (r: Self)
        ensures
            r@ == default_scope(),
    {
        let r = SessionScope { origin: None, include_site: false, scope_specification: Vec::new() };
        assert(r@.scope_specification =~= Seq::<RuleView>::empty());
        r
    }
}

/// A credential the browser must send.
#[derive(Debug, Clone, PartialEq, Eq)]
pub struct SessionCredential {
    /// Credential type; currently always "cookie".
    pub cred_type: String,
    /// Cookie name.
    pub name: String,
    /// Optional cookie attributes string.
    pub attributes: Option<String>,
}

/// What a [`SessionCredential`] says.
pub struct CredentialView {
    pub cred_type: Seq<char>,
    pub name: Seq<char>,
    pub attributes: Option<Seq<char>>,
}

impl View for SessionCredential {
    type V = CredentialView;

    open spec fn view(&self) -> CredentialView {
        CredentialView {
            cred_type: self.cred_type@,
            name: self.name@,
            attributes: text::opt_view(self.attributes),
        }
    }
}

impl SessionCredential {
    /// Create a cookie credential.
    pub fn cookie(name: &str, attributes: Option<String>) -> (r: Self)
        ensures
            r@ == (CredentialView {
                cred_type: "cookie"@,
                name: name@,
                attributes: text::opt_view(attributes),
            }),
    {
        SessionCredential { cred_type: "cookie".to_owned(), name: name.to_owned(), attributes }
    }
}

/// A session instruction sent to the client.
///
/// When `continue_session` is `false`, serialization produces only
/// `{"continue": false}`.
#[derive(Debug, Clone, PartialEq)]
pub struct SessionInstruction {
    /// Session identifier. Omitted when `continue_session` is false.
    pub session_identifier: String,
    /// Refresh endpoint URL.
    pub refresh_url: Option<String>,
    /// Whether the session continues. `false` means terminate.
    pub continue_session: bool,
    /// Session scope.
    pub scope: SessionScope,
    /// Credentials the client must present.
    pub credentials: Vec<SessionCredential>,
    /// Origins allowed to trigger refreshes.
    pub allowed_refresh_initiators: Vec<String>,
}

/// What a [`SessionInstruction`] says.
pub struct InstructionView {
    pub session_identifier: Seq<char>,
    pub refresh_url: Option<Seq<char>>,
    pub continue_session: bool,
    pub scope: ScopeView,
    pub credentials: Seq<CredentialView>,
    pub allowed_refresh_initiators: Seq<Seq<char>>,
}

/// What a list of credentials says.
pub open spec fn credential_views(list: Seq<SessionCredential>) -> Seq<CredentialView> {
    list.map_values(|c: SessionCredential| c@)
}

impl View for SessionInstruction {
    type V = InstructionView;

    open spec fn view(&self) -> InstructionView {
        InstructionView {
            session_identifier: self.session_identifier@,
            refresh_url: text::opt_view(self.refresh_url),
            continue_session: self.continue_session,
            scope: self.scope@,
            credentials: credential_views(self.credentials@),
            allowed_refresh_initiators: render::string_views(self.allowed_refresh_initiators@),
        }
    }
}

/// Wire representation: `continue: false` collapses to only that key.
#[derive(Debug, Clone, PartialEq)]
pub struct SessionInstructionRepr {
    pub continue_session: bool,
    pub session_identifier: Option<String>,
    pub refresh_url: Option<String>,
    pub scope: Option<SessionScope>,
    pub credentials: Option<Vec<SessionCredential>>,
    pub allowed_refresh_initiators: Vec<String>,
}

/// What a [`SessionInstructionRepr`] says.
pub struct ReprView {
    pub continue_session: bool,
    pub session_identifier: Option<Seq<char>>,
    pub refresh_url: Option<Seq<char>>,
    pub scope: Option<ScopeView>,
    pub credentials: Option<Seq<CredentialView>>,
    pub allowed_refresh_initiators: Seq<Seq<char>>,
}

impl View for SessionInstructionRepr {
    type V = ReprView;

    open spec fn view(&self) -> ReprView {
        ReprView {
            continue_session: self.continue_session,
            session_identifier: text::opt_view(self.session_identifier),
            refresh_url: text::opt_view(self.refresh_url),
            scope: match self.scope {
                Some(s) => Some(s@),
                None => None,
            },
            credentials: match self.credentials {
                Some(c) => Some(credential_views(c@)),
                None => None,
            },
            allowed_refresh_initiators: render::string_views(self.allowed_refresh_initiators@),
        }
    }
}

/// The wire representation of an instruction.
pub open spec fn repr_of(i: InstructionView) -> ReprView {
    if i.continue_session {
        ReprView {
            continue_session: true,
            session_identifier: Some(i.session_identifier),
            refresh_url: i.refresh_url,
            scope: Some(i.scope),
            credentials: Some(i.credentials),
            allowed_refresh_initiators: i.allowed_refresh_initiators,
        }
    } else {
        ReprView {
            continue_session: false,
            session_identifier: None,
            refresh_url: None,
            scope: None,
            credentials: None,
            allowed_refresh_initiators: Seq::empty(),
        }
    }
}

/// The instruction that a wire representation stands for; what is left out is
/// empty.
pub open spec fn instruction_of(r: ReprView) -> InstructionView {
    InstructionView {
        session_identifier: match r.session_identifier {
            Some(s) => s,
            None => Seq::empty(),
        },
        refresh_url: r.refresh_url,
        continue_session: r.continue_session,
        scope: match r.scope {
            Some(s) => s,
            None => default_scope(),
        },
        credentials: match r.credentials {
            Some(c) => c,
            None => Seq::empty(),
        },
        allowed_refresh_initiators: r.allowed_refresh_initiators,
    }
}

/// The instruction that ends a session.
pub open spec fn termination() -> InstructionView {
    InstructionView {
        session_identifier: Seq::empty(),
        refresh_url: None,
        continue_session: false,
        scope: default_scope(),
        credentials: Seq::empty(),
        allowed_refresh_initiators: Seq::empty(),
    }
}

impl From<SessionInstruction> for SessionInstructionRepr {
    fn from(i: SessionInstruction) -> (r: Self)
        ensures
            r@ == repr_of(i@),
    {
        if i.continue_session {
            SessionInstructionRepr {
                continue_session: true,
                session_identifier: Some(i.session_identifier),
                refresh_url: i.refresh_url,
                scope: Some(i.scope),
                credentials: Some(i.credentials),
                allowed_refresh_initiators: i.allowed_refresh_initiators,
            }
        } else {
            let r = SessionInstructionRepr {
                continue_session: false,
                session_identifier: None,
                refresh_url: None,
                scope: None,
                credentials: None,
                allowed_refresh_initiators: Vec::new(),
            };
            assert(r@.allowed_refresh_initiators =~= Seq::<Seq<char>>::empty());
            r
        }
    }
}

impl vstd::std_specs::convert::FromSpecImpl<SessionInstruction> for SessionInstructionRepr {
    open spec fn obeys_from_spec() -> bool {
        false
    }

    open spec fn from_spec(i: SessionInstruction) -> Self {
        arbitrary()
    }
}

impl From<SessionInstructionRepr> for SessionInstruction {
    fn from(r: SessionInstructionRepr) -> (i: Self)
        ensures
            i@ == instruction_of(r@),
    {
        let i = SessionInstruction {
            session_identifier: match r.session_identifier {
                Some(s) => s,
                None => String::new(),
            },
            refresh_url: r.refresh_url,
            continue_session: r.continue_session,
            scope: match r.scope {
                Some(s) => s,
                None => SessionScope::default(),
            },
            credentials: match r.credentials {
                Some(c) => c,
                None => Vec::new(),
            },
            allowed_refresh_initiators: r.allowed_refresh_initiators,
        };
        assert(i@.credentials =~= instruction_of(r@).credentials);
        i
    }
}

impl vstd::std_specs::convert::FromSpecImpl<SessionInstructionRepr> for SessionInstruction {
    open spec fn obeys_from_spec() -> bool {
        false
    }

    open spec fn from_spec(r: SessionInstructionRepr) -> Self {
        arbitrary()
    }
}

/// A member with a string value, or nothing.
pub open spec fn text_member(name: Seq<char>, value: Option<Seq<char>>) -> Seq<Seq<char>> {
    match value {
        Some(s) => seq![render::json_member(name, render::json_string(s))],
        None => Seq::empty(),
    }
}

/// The JSON text of a scope rule.
pub open spec fn rule_json(r: RuleView) -> Seq<char> {
    render::json_object(
        text_member("type"@, Some(r.rule_type)) + text_member("domain"@, r.domain) + text_member(
            "path"@,
            r.path,
        ),
    )
}

/// The JSON text of a list of scope rules.
pub open spec fn rules_json(rules: Seq<RuleView>) -> Seq<char> {
    render::json_array(rules.map_values(|r: RuleView| rule_json(r)))
}

/// The members of a scope.
pub open spec fn scope_members(s: ScopeView) -> Seq<Seq<char>> {
    text_member("origin"@, s.origin) + seq![
        render::json_member("include_site"@, render::json_bool(s.include_site)),
    ] + (if s.scope_specification.len() == 0 {
        Seq::empty()
    } else {
        seq![render::json_member("scope_specification"@, rules_json(s.scope_specification))]
    })
}

/// The JSON text of a scope.
pub open spec fn scope_json(s: ScopeView) -> Seq<char> {
    render::json_object(scope_members(s))
}

/// The JSON text of a credential.
pub open spec fn credential_json(c: CredentialView) -> Seq<char> {
    render::json_object(
        text_member("type"@, Some(c.cred_type)) + text_member("name"@, Some(c.name)) + text_member(
            "attributes"@,
            c.attributes,
        ),
    )
}

/// The JSON text of a list of credentials.
pub open spec fn credentials_json(list: Seq<CredentialView>) -> Seq<char> {
    render::json_array(list.map_values(|c: CredentialView| credential_json(c)))
}

/// The JSON text of a list of strings.
pub open spec fn strings_json(list: Seq<Seq<char>>) -> Seq<char> {
    render::json_array(list.map_values(|s: Seq<char>| render::json_string(s)))
}

/// The members of a wire representation; what is not there is left out.
pub open spec fn repr_members(r: ReprView) -> Seq<Seq<char>> {
    seq![render::json_member("continue"@, render::json_bool(r.continue_session))] + text_member(
        "session_identifier"@,
        r.session_identifier,
    ) + text_member("refresh_url"@, r.refresh_url) + (match r.scope {
        Some(s) => seq![render::json_member("scope"@, scope_json(s))],
        None => Seq::empty(),
    }) + (match r.credentials {
        Some(c) => seq![render::json_member("credentials"@, credentials_json(c))],
        None => Seq::empty(),
    }) + (if r.allowed_refresh_initiators.len() == 0 {
        Seq::empty()
    } else {
        seq![
            render::json_member(
                "allowed_refresh_initiators"@,
                strings_json(r.allowed_refresh_initiators),
            ),
        ]
    })
}

/// The JSON text of a wire representation.
pub open spec fn repr_json(r: ReprView) -> Seq<char> {
    render::json_object(repr_members(r))
}

/// The JSON text of an instruction.
pub open spec fn instruction_json(i: InstructionView) -> Seq<char> {
    repr_json(repr_of(i))
}

/// Append the member for `value`, when there is one.
fn push_text(members: &mut Vec<String>, name: &str, value: Option<&str>) -> (r: Result<()>)
    ensures
        r is Ok,
        render::string_views(final(members)@) == render::string_views(old(members)@) + text_member(
            name@,
            text::opt_str(value),
        ),
{
    match value {
        Some(s) => {
            let quoted = write_string(s)?;
            members.push(write_member(name, quoted.as_str()));
            assert(render::string_views(members@) =~= render::string_views(old(members)@) + text_member(
                name@,
                text::opt_str(value),
            ));
        },
        None => {
            assert(render::string_views(members@) =~= render::string_views(old(members)@) + text_member(
                name@,
                text::opt_str(value),
            ));
        },
    }
    Ok(())
}

/// Append a member whose value is written already.
fn push_member(members: &mut Vec<String>, name: &str, value: &str)
    ensures
        render::string_views(final(members)@) == render::string_views(old(members)@).push(
            render::json_member(name@, value@),
        ),
{
    members.push(write_member(name, value));
    assert(render::string_views(members@) =~= render::string_views(old(members)@).push(
        render::json_member(name@, value@),
    ));
}

/// Append an element that is written already.
fn push_written(elements: &mut Vec<String>, element: String)
    ensures
        render::string_views(final(elements)@) == render::string_views(old(elements)@).push(element@),
{
    elements.push(element);
    assert(render::string_views(elements@) =~= render::string_views(old(elements)@).push(element@));
}

fn write_rule(rule: &ScopeRule) -> (r: Result<String>)
    ensures
        match r {
            Ok(t) => t@ == rule_json(rule@),
            Err(_) => false,
        },
{
    let mut members: Vec<String> = Vec::new();
    push_text(&mut members, "type", Some(rule.rule_type.as_str()))?;
    push_text(&mut members, "domain", as_str_opt(&rule.domain))?;
    push_text(&mut members, "path", as_str_opt(&rule.path))?;
    assert(render::string_views(members@) =~= text_member("type"@, Some(rule@.rule_type))
        + text_member("domain"@, rule@.domain) + text_member("path"@, rule@.path));
    Ok(write_object(&members))
}

fn write_rules(rules: &Vec<ScopeRule>) -> (r: Result<String>)
    ensures
        match r {
            Ok(t) => t@ == rules_json(rules@.map_values(|x: ScopeRule| x@)),
            Err(_) => false,
        },
{
    let ghost all = rules@.map_values(|x: ScopeRule| x@).map_values(|x: RuleView| rule_json(x));
    let mut elements: Vec<String> = Vec::new();
    let mut i: usize = 0;
    while i < rules.len()
        invariant
            i <= rules@.len(),
            all == rules@.map_values(|x: ScopeRule| x@).map_values(|x: RuleView| rule_json(x)),
            render::string_views(elements@) == all.take(i as int),
        decreases rules@.len() - i,
    {
        push_written(&mut elements, write_rule(&rules[i])?);
        i = i + 1;
        assert(all.take(i as int) =~= all.take(i - 1).push(all[i - 1]));
    }
    assert(all.take(i as int) =~= all);
    Ok(write_array(&elements))
}

fn write_scope(scope: &SessionScope) -> (r: Result<String>)
    ensures
        match r {
            Ok(t) => t@ == scope_json(scope@),
            Err(_) => false,
        },
{
    let mut members: Vec<String> = Vec::new();
    push_text(&mut members, "origin", as_str_opt(&scope.origin))?;
    push_member(&mut members, "include_site", write_bool(scope.include_site).as_str());
    if scope.scope_specification.len() > 0 {
        let rules = write_rules(&scope.scope_specification)?;
        push_member(&mut members, "scope_specification", rules.as_str());
    }
    assert(render::json_object(render::string_views(members@)) == scope_json(scope@)) by {
        assert(render::string_views(members@) =~= scope_members(scope@));
    }
    Ok(write_object(&members))
}

fn write_credential(credential: &SessionCredential) -> (r: Result<String>)
    ensures
        match r {
            Ok(t) => t@ == credential_json(credential@),
            Err(_) => false,
        },
{
    let mut members: Vec<String> = Vec::new();
    push_text(&mut members, "type", Some(credential.cred_type.as_str()))?;
    push_text(&mut members, "name", Some(credential.name.as_str()))?;
    push_text(&mut members, "attributes", as_str_opt(&credential.attributes))?;
    assert(render::string_views(members@) =~= text_member("type"@, Some(credential@.cred_type))
        + text_member("name"@, Some(credential@.name)) + text_member(
        "attributes"@,
        credential@.attributes,
    ));
    Ok(write_object(&members))
}

fn write_credentials(list: &Vec<SessionCredential>) -> (r: Result<String>)
    ensures
        match r {
            Ok(t) => t@ == credentials_json(credential_views(list@)),
            Err(_) => false,
        },
{
    let ghost all = credential_views(list@).map_values(|c: CredentialView| credential_json(c));
    let mut elements: Vec<String> = Vec::new();
    let mut i: usize = 0;
    while i < list.len()
        invariant
            i <= list@.len(),
            all == credential_views(list@).map_values(|c: CredentialView| credential_json(c)),
            render::string_views(elements@) == all.take(i as int),
        decreases list@.len() - i,
    {
        push_written(&mut elements, write_credential(&list[i])?);
        i = i + 1;
        assert(all.take(i as int) =~= all.take(i - 1).push(all[i - 1]));
    }
    assert(all.take(i as int) =~= all);
    Ok(write_array(&elements))
}

fn write_strings(list: &Vec<String>) -> (r: Result<String>)
    ensures
        match r {
            Ok(t) => t@ == strings_json(render::string_views(list@)),
            Err(_) => false,
        },
{
    let ghost all = render::string_views(list@).map_values(|s: Seq<char>| render::json_string(s));
    let mut elements: Vec<String> = Vec::new();
    let mut i: usize = 0;
    while i < list.len()
        invariant
            i <= list@.len(),
            all == render::string_views(list@).map_values(|s: Seq<char>| render::json_string(s)),
            render::string_views(elements@) == all.take(i as int),
        decreases list@.len() - i,
    {
        push_written(&mut elements, write_string(list[i].as_str())?);
        i = i + 1;
        assert(all.take(i as int) =~= all.take(i - 1).push(all[i - 1]));
    }
    assert(all.take(i as int) =~= all);
    Ok(write_array(&elements))
}

impl SessionInstruction {
    /// Instruction terminating the session (`{"continue": false}`).
    pub fn terminate() -> (r: Self)
        ensures
            r@ == termination(),
    {
        let r = SessionInstruction {
            session_identifier: String::new(),
            refresh_url: None,
            continue_session: false,
            scope: SessionScope::default(),
            credentials: Vec::new(),
            allowed_refresh_initiators: Vec::new(),
        };
        assert(r@.credentials =~= Seq::<CredentialView>::empty());
        assert(r@.allowed_refresh_initiators =~= Seq::<Seq<char>>::empty());
        r
    }

    /// Serialize to a JSON string.
    pub fn to_json_string(&self) -> (r: Result<String>)
        ensures
            match r {
                Ok(t) => t@ == instruction_json(self@),
                Err(_) => false,
            },
    {
        let mut members: Vec<String> = Vec::new();
        push_member(&mut members, "continue", write_bool(self.continue_session).as_str());
        if self.continue_session {
            push_text(
                &mut members,
                "session_identifier",
                Some(self.session_identifier.as_str()),
            )?;
            push_text(&mut members, "refresh_url", as_str_opt(&self.refresh_url))?;
            let scope = write_scope(&self.scope)?;
            push_member(&mut members, "scope", scope.as_str());
            let credentials = write_credentials(&self.credentials)?;
            push_member(&mut members, "credentials", credentials.as_str());
            if self.allowed_refresh_initiators.len() > 0 {
                let initiators = write_strings(&self.allowed_refresh_initiators)?;
                push_member(&mut members, "allowed_refresh_initiators", initiators.as_str());
            }
        }
        assert(render::json_object(render::string_views(members@)) == instruction_json(self@)) by {
            let r = repr_of(self@);
            assert(render::string_views(members@) =~= repr_members(r));
        }
        Ok(write_object(&members))
    }
}

/// Serializing ends at `{"continue":false}` whenever the session does not
/// continue, whatever else the instruction holds.
pub proof fn law_termination_text(i: InstructionView)
    requires
        !i.continue_session,
    ensures
        instruction_json(i) == "{\"continue\":false}"@,
{
    reveal_strlit("{\"continue\":false}");
    reveal_strlit("continue");
    reveal_strlit("false");
    let m = render::json_member("continue"@, render::json_bool(false));
    assert(repr_members(repr_of(i)) =~= seq![m]);
    assert(text::join(seq![m], ","@) =~= m) by {
        assert(seq![m].drop_last() =~= Seq::<Seq<char>>::empty());
    }
    assert(instruction_json(i) =~= "{\"continue\":false}"@);
}

/// Going to the wire representation and back keeps a continuing instruction
/// as it is, and leaves of any other the instruction that ends the session.
pub proof fn law_representation_reads_back(i: InstructionView)
    ensures
        instruction_of(repr_of(i)) == (if i.continue_session {
            i
        } else {
            termination()
        }),
{
}

/// The text of a string that may be missing.
spec fn opt_text(s: Option<Seq<char>>) -> Option<Seq<char>> {
    match s {
        Some(t) => Some(render::json_string(t)),
        None => None,
    }
}

/// The member for a value that may be missing.
spec fn opt_member(name: Seq<char>, value: Option<Seq<char>>) -> Seq<Seq<char>> {
    match value {
        Some(v) => seq![render::json_member(name, v)],
        None => Seq::empty(),
    }
}

/// Whether no member has the name.
spec fn lacks(members: Seq<Seq<char>>, name: Seq<char>) -> bool {
    forall|i: int, v: Seq<char>|
        0 <= i < members.len() ==> #[trigger] members[i] != #[trigger] render::json_member(name, v)
}

proof fn lemma_lacks(name: Seq<char>, other: Seq<char>, v: Option<Seq<char>>, rest: Seq<Seq<char>>)
    requires
        render::is_plain(name),
        render::is_plain(other),
        name != other,
        lacks(rest, name),
    ensures
        lacks(opt_member(other, v) + rest, name),
{
    let all = opt_member(other, v) + rest;
    assert forall|i: int, w: Seq<char>| 0 <= i < all.len() implies #[trigger] all[i]
        != #[trigger] render::json_member(name, w) by {
        if v is Some {
            if i == 0 {
                if all[0] == render::json_member(name, w) {
                    render::law_member_text_unique(other, v->Some_0, name, w);
                }
            } else {
                assert(all[i] == rest[i - 1]);
            }
        } else {
            assert(all[i] == rest[i]);
        }
    }
}

/// Lists that begin with the member `name`, or lack it, agree on it and on the
/// rest.
proof fn lemma_peel(
    name: Seq<char>,
    v: Option<Seq<char>>,
    a: Seq<Seq<char>>,
    w: Option<Seq<char>>,
    b: Seq<Seq<char>>,
)
    requires
        render::is_plain(name),
        opt_member(name, v) + a == opt_member(name, w) + b,
        lacks(a, name),
        lacks(b, name),
    ensures
        v == w,
        a == b,
{
    let x = opt_member(name, v) + a;
    let y = opt_member(name, w) + b;
    match (v, w) {
        (Some(p), Some(q)) => {
            assert(x[0] == render::json_member(name, p));
            assert(y[0] == render::json_member(name, q));
            render::law_member_text_unique(name, p, name, q);
            assert(a =~= x.drop_first());
            assert(b =~= y.drop_first());
        },
        (Some(p), None) => {
            assert(x[0] == render::json_member(name, p));
            assert(y =~= b);
            assert(b[0] == render::json_member(name, p));
        },
        (None, Some(q)) => {
            assert(y[0] == render::json_member(name, q));
            assert(x =~= a);
            assert(a[0] == render::json_member(name, q));
        },
        (None, None) => {
            assert(x =~= a);
            assert(y =~= b);
        },
    }
}

proof fn lemma_opt_items(name: Seq<char>, v: Option<Seq<char>>, rest: Seq<Seq<char>>)
    requires
        render::is_plain(name),
        v matches Some(t) ==> render::is_item(t),
        render::all_items(rest),
    ensures
        render::all_items(opt_member(name, v) + rest),
{
    let all = opt_member(name, v) + rest;
    if v is Some {
        render::lemma_member_item(name, v->Some_0);
    }
    assert forall|i: int| 0 <= i < all.len() implies render::is_item(#[trigger] all[i]) by {
        if v is Some {
            if i > 0 {
                assert(all[i] == rest[i - 1]);
            }
        } else {
            assert(all[i] == rest[i]);
        }
    }
}

/// The members of an object with up to three members, the third at the end.
spec fn three(
    n1: Seq<char>,
    v1: Option<Seq<char>>,
    n2: Seq<char>,
    v2: Option<Seq<char>>,
    n3: Seq<char>,
    v3: Option<Seq<char>>,
    rest: Seq<Seq<char>>,
) -> Seq<Seq<char>> {
    opt_member(n1, v1) + (opt_member(n2, v2) + (opt_member(n3, v3) + rest))
}

spec fn is_opt_item(v: Option<Seq<char>>) -> bool {
    v matches Some(t) ==> render::is_item(t)
}

spec fn distinct_names(n1: Seq<char>, n2: Seq<char>, n3: Seq<char>) -> bool {
    &&& render::is_plain(n1)
    &&& render::is_plain(n2)
    &&& render::is_plain(n3)
    &&& n1 != n2
    &&& n1 != n3
    &&& n2 != n3
}

proof fn lemma_three_items(
    n1: Seq<char>,
    v1: Option<Seq<char>>,
    n2: Seq<char>,
    v2: Option<Seq<char>>,
    n3: Seq<char>,
    v3: Option<Seq<char>>,
    rest: Seq<Seq<char>>,
)
    requires
        distinct_names(n1, n2, n3),
        is_opt_item(v1),
        is_opt_item(v2),
        is_opt_item(v3),
        render::all_items(rest),
    ensures
        render::all_items(three(n1, v1, n2, v2, n3, v3, rest)),
{
    lemma_opt_items(n3, v3, rest);
    lemma_opt_items(n2, v2, opt_member(n3, v3) + rest);
    lemma_opt_items(n1, v1, opt_member(n2, v2) + (opt_member(n3, v3) + rest));
}

proof fn lemma_three_unique(
    n1: Seq<char>,
    v1: Option<Seq<char>>,
    w1: Option<Seq<char>>,
    n2: Seq<char>,
    v2: Option<Seq<char>>,
    w2: Option<Seq<char>>,
    n3: Seq<char>,
    v3: Option<Seq<char>>,
    w3: Option<Seq<char>>,
    a: Seq<Seq<char>>,
    b: Seq<Seq<char>>,
)
    requires
        distinct_names(n1, n2, n3),
        lacks(a, n1),
        lacks(a, n2),
        lacks(a, n3),
        lacks(b, n1),
        lacks(b, n2),
        lacks(b, n3),
        three(n1, v1, n2, v2, n3, v3, a) == three(n1, w1, n2, w2, n3, w3, b),
    ensures
        v1 == w1,
        v2 == w2,
        v3 == w3,
        a == b,
{
    let a3 = opt_member(n3, v3) + a;
    let b3 = opt_member(n3, w3) + b;
    lemma_lacks(n2, n3, v3, a);
    lemma_lacks(n2, n3, w3, b);
    lemma_lacks(n1, n3, v3, a);
    lemma_lacks(n1, n3, w3, b);
    lemma_lacks(n1, n2, v2, a3);
    lemma_lacks(n1, n2, w2, b3);
    lemma_peel(n1, v1, opt_member(n2, v2) + a3, w1, opt_member(n2, w2) + b3);
    lemma_peel(n2, v2, a3, w2, b3);
    lemma_peel(n3, v3, a, w3, b);
}

proof fn lemma_opt_text(a: Option<Seq<char>>, b: Option<Seq<char>>)
    ensures
        is_opt_item(opt_text(a)),
        opt_text(a) == opt_text(b) ==> a == b,
{
    if a is Some {
        render::lemma_string_item(a->Some_0);
        if opt_text(a) == opt_text(b) {
            render::law_string_text_unique(a->Some_0, b->Some_0);
        }
    }
}

/// The text of an object with up to three members is an item and determines the
/// values of the members.
proof fn lemma_object_unique(
    n1: Seq<char>,
    v1: Option<Seq<char>>,
    w1: Option<Seq<char>>,
    n2: Seq<char>,
    v2: Option<Seq<char>>,
    w2: Option<Seq<char>>,
    n3: Seq<char>,
    v3: Option<Seq<char>>,
    w3: Option<Seq<char>>,
)
    requires
        distinct_names(n1, n2, n3),
        is_opt_item(v1),
        is_opt_item(v2),
        is_opt_item(v3),
        is_opt_item(w1),
        is_opt_item(w2),
        is_opt_item(w3),
    ensures
        ({
            let x = render::json_object(three(n1, v1, n2, v2, n3, v3, Seq::empty()));
            let y = render::json_object(three(n1, w1, n2, w2, n3, w3, Seq::empty()));
            &&& render::is_item(x)
            &&& x == y ==> v1 == w1 && v2 == w2 && v3 == w3
        }),
{
    let none = Seq::<Seq<char>>::empty();
    let x = three(n1, v1, n2, v2, n3, v3, none);
    let y = three(n1, w1, n2, w2, n3, w3, none);
    lemma_three_items(n1, v1, n2, v2, n3, v3, none);
    lemma_three_items(n1, w1, n2, w2, n3, w3, none);
    render::lemma_nested_item(x);
    if render::json_object(x) == render::json_object(y) {
        render::law_nested_text_unique(x, y);
        lemma_three_unique(n1, v1, w1, n2, v2, w2, n3, v3, w3, none, none);
    }
}

proof fn lemma_rule_names()
    ensures
        distinct_names("type"@, "domain"@, "path"@),
{
    reveal_strlit("type");
    reveal_strlit("domain");
    reveal_strlit("path");
    assert("type"@[0] == 't' && "domain"@[0] == 'd' && "path"@[0] == 'p');
}

proof fn lemma_rule_text(r: RuleView)
    ensures
        rule_json(r) == render::json_object(
            three(
                "type"@,
                opt_text(Some(r.rule_type)),
                "domain"@,
                opt_text(r.domain),
                "path"@,
                opt_text(r.path),
                Seq::empty(),
            ),
        ),
{
    assert(text_member("type"@, Some(r.rule_type)) + text_member("domain"@, r.domain)
        + text_member("path"@, r.path) =~= three(
        "type"@,
        opt_text(Some(r.rule_type)),
        "domain"@,
        opt_text(r.domain),
        "path"@,
        opt_text(r.path),
        Seq::empty(),
    ));
}

proof fn lemma_rule_unique(a: RuleView, b: RuleView)
    ensures
        render::is_item(rule_json(a)),
        rule_json(a) == rule_json(b) ==> a == b,
{
    lemma_rule_names();
    lemma_opt_text(Some(a.rule_type), Some(b.rule_type));
    lemma_opt_text(Some(b.rule_type), Some(a.rule_type));
    lemma_opt_text(a.domain, b.domain);
    lemma_opt_text(b.domain, a.domain);
    lemma_opt_text(a.path, b.path);
    lemma_opt_text(b.path, a.path);
    lemma_rule_text(a);
    lemma_rule_text(b);
    lemma_object_unique(
        "type"@,
        opt_text(Some(a.rule_type)),
        opt_text(Some(b.rule_type)),
        "domain"@,
        opt_text(a.domain),
        opt_text(b.domain),
        "path"@,
        opt_text(a.path),
        opt_text(b.path),
    );
}

proof fn lemma_rules_unique(a: Seq<RuleView>, b: Seq<RuleView>)
    ensures
        render::is_item(rules_json(a)),
        rules_json(a) == rules_json(b) ==> a == b,
{
    let x = a.map_values(|r: RuleView| rule_json(r));
    let y = b.map_values(|r: RuleView| rule_json(r));
    assert forall|i: int| 0 <= i < x.len() implies render::is_item(#[trigger] x[i]) by {
        lemma_rule_unique(a[i], a[i]);
    }
    assert forall|i: int| 0 <= i < y.len() implies render::is_item(#[trigger] y[i]) by {
        lemma_rule_unique(b[i], b[i]);
    }
    render::lemma_nested_item(x);
    if rules_json(a) == rules_json(b) {
        render::law_nested_text_unique(x, y);
        assert forall|i: int| 0 <= i < a.len() implies a[i] == b[i] by {
            assert(x[i] == y[i]);
            lemma_rule_unique(a[i], b[i]);
        }
        assert(a.len() == x.len() && b.len() == y.len());
        assert(a =~= b);
    }
}

/// The text of a list of rules, left out when there is none.
spec fn opt_rules(rules: Seq<RuleView>) -> Option<Seq<char>> {
    if rules.len() == 0 {
        None
    } else {
        Some(rules_json(rules))
    }
}

proof fn lemma_scope_text(s: ScopeView)
    ensures
        scope_json(s) == render::json_object(
            three(
                "origin"@,
                opt_text(s.origin),
                "include_site"@,
                Some(render::json_bool(s.include_site)),
                "scope_specification"@,
                opt_rules(s.scope_specification),
                Seq::empty(),
            ),
        ),
{
    assert(scope_members(s) =~= three(
        "origin"@,
        opt_text(s.origin),
        "include_site"@,
        Some(render::json_bool(s.include_site)),
        "scope_specification"@,
        opt_rules(s.scope_specification),
        Seq::empty(),
    ));
}

proof fn lemma_scope_names()
    ensures
        distinct_names("origin"@, "include_site"@, "scope_specification"@),
{
    reveal_strlit("origin");
    reveal_strlit("include_site");
    reveal_strlit("scope_specification");
    assert("origin"@[0] == 'o' && "include_site"@[0] == 'i' && "scope_specification"@[0] == 's');
}

proof fn lemma_scope_unique(a: ScopeView, b: ScopeView)
    ensures
        render::is_item(scope_json(a)),
        scope_json(a) == scope_json(b) ==> a == b,
{
    lemma_scope_names();
    lemma_opt_text(a.origin, b.origin);
    lemma_opt_text(b.origin, a.origin);
    render::lemma_bool_item(a.include_site, b.include_site);
    render::lemma_bool_item(b.include_site, a.include_site);
    lemma_rules_unique(a.scope_specification, b.scope_specification);
    lemma_rules_unique(b.scope_specification, a.scope_specification);
    lemma_scope_text(a);
    lemma_scope_text(b);
    lemma_object_unique(
        "origin"@,
        opt_text(a.origin),
        opt_text(b.origin),
        "include_site"@,
        Some(render::json_bool(a.include_site)),
        Some(render::json_bool(b.include_site)),
        "scope_specification"@,
        opt_rules(a.scope_specification),
        opt_rules(b.scope_specification),
    );
    if scope_json(a) == scope_json(b) {
        assert(a.scope_specification =~= b.scope_specification);
    }
}

proof fn lemma_credential_names()
    ensures
        distinct_names("type"@, "name"@, "attributes"@),
{
    reveal_strlit("type");
    reveal_strlit("name");
    reveal_strlit("attributes");
    assert("type"@[0] == 't' && "name"@[0] == 'n' && "attributes"@[0] == 'a');
}

proof fn lemma_credential_text(c: CredentialView)
    ensures
        credential_json(c) == render::json_object(
            three(
                "type"@,
                opt_text(Some(c.cred_type)),
                "name"@,
                opt_text(Some(c.name)),
                "attributes"@,
                opt_text(c.attributes),
                Seq::empty(),
            ),
        ),
{
    assert(text_member("type"@, Some(c.cred_type)) + text_member("name"@, Some(c.name))
        + text_member("attributes"@, c.attributes) =~= three(
        "type"@,
        opt_text(Some(c.cred_type)),
        "name"@,
        opt_text(Some(c.name)),
        "attributes"@,
        opt_text(c.attributes),
        Seq::empty(),
    ));
}

proof fn lemma_credential_unique(a: CredentialView, b: CredentialView)
    ensures
        render::is_item(credential_json(a)),
        credential_json(a) == credential_json(b) ==> a == b,
{
    lemma_credential_names();
    lemma_opt_text(Some(a.cred_type), Some(b.cred_type));
    lemma_opt_text(Some(b.cred_type), Some(a.cred_type));
    lemma_opt_text(Some(a.name), Some(b.name));
    lemma_opt_text(Some(b.name), Some(a.name));
    lemma_opt_text(a.attributes, b.attributes);
    lemma_opt_text(b.attributes, a.attributes);
    lemma_credential_text(a);
    lemma_credential_text(b);
    lemma_object_unique(
        "type"@,
        opt_text(Some(a.cred_type)),
        opt_text(Some(b.cred_type)),
        "name"@,
        opt_text(Some(a.name)),
        opt_text(Some(b.name)),
        "attributes"@,
        opt_text(a.attributes),
        opt_text(b.attributes),
    );
}

proof fn lemma_credentials_unique(a: Seq<CredentialView>, b: Seq<CredentialView>)
    ensures
        render::is_item(credentials_json(a)),
        credentials_json(a) == credentials_json(b) ==> a == b,
{
    let x = a.map_values(|c: CredentialView| credential_json(c));
    let y = b.map_values(|c: CredentialView| credential_json(c));
    assert forall|i: int| 0 <= i < x.len() implies render::is_item(#[trigger] x[i]) by {
        lemma_credential_unique(a[i], a[i]);
    }
    assert forall|i: int| 0 <= i < y.len() implies render::is_item(#[trigger] y[i]) by {
        lemma_credential_unique(b[i], b[i]);
    }
    render::lemma_nested_item(x);
    if credentials_json(a) == credentials_json(b) {
        render::law_nested_text_unique(x, y);
        assert forall|i: int| 0 <= i < a.len() implies a[i] == b[i] by {
            assert(x[i] == y[i]);
            lemma_credential_unique(a[i], b[i]);
        }
        assert(a.len() == x.len() && b.len() == y.len());
        assert(a =~= b);
    }
}

proof fn lemma_strings_unique(a: Seq<Seq<char>>, b: Seq<Seq<char>>)
    ensures
        render::is_item(strings_json(a)),
        strings_json(a) == strings_json(b) ==> a == b,
{
    let x = a.map_values(|s: Seq<char>| render::json_string(s));
    let y = b.map_values(|s: Seq<char>| render::json_string(s));
    assert forall|i: int| 0 <= i < x.len() implies render::is_item(#[trigger] x[i]) by {
        render::lemma_string_item(a[i]);
    }
    assert forall|i: int| 0 <= i < y.len() implies render::is_item(#[trigger] y[i]) by {
        render::lemma_string_item(b[i]);
    }
    render::lemma_nested_item(x);
    if strings_json(a) == strings_json(b) {
        render::law_nested_text_unique(x, y);
        assert forall|i: int| 0 <= i < a.len() implies a[i] == b[i] by {
            assert(x[i] == y[i]);
            render::law_string_text_unique(a[i], b[i]);
        }
        assert(a.len() == x.len() && b.len() == y.len());
        assert(a =~= b);
    }
}

spec fn opt_scope(s: Option<ScopeView>) -> Option<Seq<char>> {
    match s {
        Some(x) => Some(scope_json(x)),
        None => None,
    }
}

spec fn opt_credentials(c: Option<Seq<CredentialView>>) -> Option<Seq<char>> {
    match c {
        Some(x) => Some(credentials_json(x)),
        None => None,
    }
}

spec fn opt_strings(list: Seq<Seq<char>>) -> Option<Seq<char>> {
    if list.len() == 0 {
        None
    } else {
        Some(strings_json(list))
    }
}

/// The last three members of a wire representation.
spec fn last_members(r: ReprView) -> Seq<Seq<char>> {
    three(
        "scope"@,
        opt_scope(r.scope),
        "credentials"@,
        opt_credentials(r.credentials),
        "allowed_refresh_initiators"@,
        opt_strings(r.allowed_refresh_initiators),
        Seq::empty(),
    )
}

proof fn lemma_repr_names()
    ensures
        distinct_names("continue"@, "session_identifier"@, "refresh_url"@),
        distinct_names("scope"@, "credentials"@, "allowed_refresh_initiators"@),
        "continue"@ != "scope"@,
        "continue"@ != "credentials"@,
        "continue"@ != "allowed_refresh_initiators"@,
        "session_identifier"@ != "scope"@,
        "session_identifier"@ != "credentials"@,
        "session_identifier"@ != "allowed_refresh_initiators"@,
        "refresh_url"@ != "scope"@,
        "refresh_url"@ != "credentials"@,
        "refresh_url"@ != "allowed_refresh_initiators"@,
{
    reveal_strlit("continue");
    reveal_strlit("session_identifier");
    reveal_strlit("refresh_url");
    reveal_strlit("scope");
    reveal_strlit("credentials");
    reveal_strlit("allowed_refresh_initiators");
    assert("continue"@[0] == 'c' && "continue"@[1] == 'o');
    assert("session_identifier"@[0] == 's' && "session_identifier"@[1] == 'e');
    assert("refresh_url"@[0] == 'r');
    assert("scope"@[0] == 's' && "scope"@[1] == 'c');
    assert("credentials"@[0] == 'c' && "credentials"@[1] == 'r');
    assert("allowed_refresh_initiators"@[0] == 'a');
}

proof fn lemma_last_lacks(r: ReprView, name: Seq<char>)
    requires
        render::is_plain(name),
        name != "scope"@,
        name != "credentials"@,
        name != "allowed_refresh_initiators"@,
    ensures
        lacks(last_members(r), name),
{
    lemma_repr_names();
    let none = Seq::<Seq<char>>::empty();
    let i = opt_strings(r.allowed_refresh_initiators);
    let c = opt_credentials(r.credentials);
    let tail = opt_member("allowed_refresh_initiators"@, i) + none;
    lemma_lacks(name, "allowed_refresh_initiators"@, i, none);
    lemma_lacks(name, "credentials"@, c, tail);
    lemma_lacks(name, "scope"@, opt_scope(r.scope), opt_member("credentials"@, c) + tail);
}

/// The members of a wire representation, one behind the other.
spec fn members_in_order(r: ReprView) -> Seq<Seq<char>> {
    three(
        "continue"@,
        Some(render::json_bool(r.continue_session)),
        "session_identifier"@,
        opt_text(r.session_identifier),
        "refresh_url"@,
        opt_text(r.refresh_url),
        last_members(r),
    )
}

proof fn lemma_repr_items(r: ReprView)
    ensures
        repr_members(r) == members_in_order(r),
        render::all_items(members_in_order(r)),
{
    lemma_repr_names();
    if r.scope is Some {
        lemma_scope_unique(r.scope->Some_0, r.scope->Some_0);
    }
    if r.credentials is Some {
        lemma_credentials_unique(r.credentials->Some_0, r.credentials->Some_0);
    }
    lemma_strings_unique(r.allowed_refresh_initiators, r.allowed_refresh_initiators);
    lemma_opt_text(r.session_identifier, None);
    lemma_opt_text(r.refresh_url, None);
    render::lemma_bool_item(r.continue_session, true);
    lemma_three_items(
        "scope"@,
        opt_scope(r.scope),
        "credentials"@,
        opt_credentials(r.credentials),
        "allowed_refresh_initiators"@,
        opt_strings(r.allowed_refresh_initiators),
        Seq::empty(),
    );
    lemma_three_items(
        "continue"@,
        Some(render::json_bool(r.continue_session)),
        "session_identifier"@,
        opt_text(r.session_identifier),
        "refresh_url"@,
        opt_text(r.refresh_url),
        last_members(r),
    );
    assert(repr_members(r) =~= members_in_order(r));
}

/// The JSON text of a wire representation determines it: no two have the same.
pub proof fn law_text_determines_representation(a: ReprView, b: ReprView)
    requires
        repr_json(a) == repr_json(b),
    ensures
        a == b,
{
    lemma_repr_names();
    lemma_repr_items(a);
    lemma_repr_items(b);
    render::law_nested_text_unique(members_in_order(a), members_in_order(b));
    lemma_last_lacks(a, "continue"@);
    lemma_last_lacks(a, "session_identifier"@);
    lemma_last_lacks(a, "refresh_url"@);
    lemma_last_lacks(b, "continue"@);
    lemma_last_lacks(b, "session_identifier"@);
    lemma_last_lacks(b, "refresh_url"@);
    lemma_three_unique(
        "continue"@,
        Some(render::json_bool(a.continue_session)),
        Some(render::json_bool(b.continue_session)),
        "session_identifier"@,
        opt_text(a.session_identifier),
        opt_text(b.session_identifier),
        "refresh_url"@,
        opt_text(a.refresh_url),
        opt_text(b.refresh_url),
        last_members(a),
        last_members(b),
    );
    lemma_three_unique(
        "scope"@,
        opt_scope(a.scope),
        opt_scope(b.scope),
        "credentials"@,
        opt_credentials(a.credentials),
        opt_credentials(b.credentials),
        "allowed_refresh_initiators"@,
        opt_strings(a.allowed_refresh_initiators),
        opt_strings(b.allowed_refresh_initiators),
        Seq::empty(),
        Seq::empty(),
    );
    render::lemma_bool_item(a.continue_session, b.continue_session);
    lemma_opt_text(a.session_identifier, b.session_identifier);
    lemma_opt_text(a.refresh_url, b.refresh_url);
    if a.scope is Some {
        lemma_scope_unique(a.scope->Some_0, b.scope->Some_0);
    }
    if a.credentials is Some {
        lemma_credentials_unique(a.credentials->Some_0, b.credentials->Some_0);
    }
    lemma_strings_unique(a.allowed_refresh_initiators, b.allowed_refresh_initiators);
    assert(a.allowed_refresh_initiators =~= b.allowed_refresh_initiators);
}

/// A continuing instruction can be read back from its JSON text: no other
/// instruction is written as the same text.
pub proof fn law_text_determines_instruction(a: InstructionView, b: InstructionView)
    requires
        instruction_json(a) == instruction_json(b),
    ensures
        repr_of(a) == repr_of(b),
        a.continue_session ==> a == b,
{
    law_text_determines_representation(repr_of(a), repr_of(b));
}

/// A name and a value as they stand in an object.
pub open spec fn entry(name: Seq<char>, value: Seq<char>) -> Seq<char> {
    "\""@ + name + "\":"@ + value
}

/// A further entry for a string, where there is one.
pub open spec fn further(name: Seq<char>, value: Option<Seq<char>>) -> Seq<char> {
    match value {
        Some(s) => ","@ + entry(name, render::json_string(s)),
        None => seq![],
    }
}

proof fn lemma_entry(name: Seq<char>, value: Seq<char>)
    ensures
        render::json_member(name, value) == entry(name, value),
{
    reveal_strlit("\"");
    reveal_strlit("\":");
    assert(render::json_member(name, value) =~= entry(name, value));
}

proof fn lemma_one_joined(piece: Seq<char>)
    ensures
        text::join(seq![piece], ","@) == piece,
{
}

proof fn lemma_join_one_more(pieces: Seq<Seq<char>>, piece: Seq<char>)
    requires
        pieces.len() > 0,
    ensures
        text::join(pieces + seq![piece], ","@) == text::join(pieces, ","@) + (","@ + piece),
        text::join(pieces.push(piece), ","@) == text::join(pieces, ","@) + (","@ + piece),
{
    assert(pieces + seq![piece] =~= pieces.push(piece));
    assert(pieces.push(piece).drop_last() =~= pieces);
    assert(text::join(pieces, ","@) + ","@ + piece =~= text::join(pieces, ","@) + (","@ + piece));
}

proof fn lemma_join_further(pieces: Seq<Seq<char>>, name: Seq<char>, value: Option<Seq<char>>)
    requires
        pieces.len() > 0,
    ensures
        text::join(pieces + text_member(name, value), ","@) == text::join(pieces, ","@) + further(
            name,
            value,
        ),
{
    if let Some(s) = value {
        lemma_entry(name, render::json_string(s));
        lemma_join_one_more(pieces, render::json_member(name, render::json_string(s)));
    } else {
        assert(pieces + text_member(name, value) =~= pieces);
        assert(text::join(pieces, ","@) + further(name, value) =~= text::join(pieces, ","@));
    }
}

proof fn lemma_in_braces(members: Seq<Seq<char>>, inner: Seq<char>)
    requires
        text::join(members, ","@) == inner,
    ensures
        render::json_object(members) == "{"@ + inner + "}"@,
{
    reveal_strlit("{");
    reveal_strlit("}");
    assert(render::json_object(members) =~= "{"@ + inner + "}"@);
}

/// The text of a scope rule: its type, and its domain and its path where it has them.
pub proof fn law_rule_text(r: RuleView)
    ensures
        rule_json(r) == "{"@ + (entry("type"@, render::json_string(r.rule_type)) + further(
            "domain"@,
            r.domain,
        ) + further("path"@, r.path)) + "}"@,
{
    let first = text_member("type"@, Some(r.rule_type));
    let m = render::json_member("type"@, render::json_string(r.rule_type));
    lemma_entry("type"@, render::json_string(r.rule_type));
    lemma_one_joined(m);
    lemma_join_further(first, "domain"@, r.domain);
    lemma_join_further(first + text_member("domain"@, r.domain), "path"@, r.path);
    lemma_in_braces(
        first + text_member("domain"@, r.domain) + text_member("path"@, r.path),
        entry("type"@, render::json_string(r.rule_type)) + further("domain"@, r.domain) + further(
            "path"@,
            r.path,
        ),
    );
}

/// The text of a credential: its type, its name, and its attributes where it has
/// them.
pub proof fn law_credential_text(c: CredentialView)
    ensures
        credential_json(c) == "{"@ + (entry("type"@, render::json_string(c.cred_type)) + further(
            "name"@,
            Some(c.name),
        ) + further("attributes"@, c.attributes)) + "}"@,
{
    let first = text_member("type"@, Some(c.cred_type));
    let m = render::json_member("type"@, render::json_string(c.cred_type));
    lemma_entry("type"@, render::json_string(c.cred_type));
    lemma_one_joined(m);
    lemma_join_further(first, "name"@, Some(c.name));
    lemma_join_further(first + text_member("name"@, Some(c.name)), "attributes"@, c.attributes);
    lemma_in_braces(
        first + text_member("name"@, Some(c.name)) + text_member("attributes"@, c.attributes),
        entry("type"@, render::json_string(c.cred_type)) + further("name"@, Some(c.name)) + further(
            "attributes"@,
            c.attributes,
        ),
    );
}

/// The text of a scope: its origin where it has one, whether it spans the site, and
/// its rules where there are any.
pub proof fn law_scope_text(s: ScopeView)
    ensures
        scope_json(s) == "{"@ + ((match s.origin {
            Some(origin) => entry("origin"@, render::json_string(origin)) + ","@,
            None => seq![],
        }) + entry(
            "include_site"@,
            if s.include_site {
                "true"@
            } else {
                "false"@
            },
        ) + (if s.scope_specification.len() > 0 {
            ","@ + entry("scope_specification"@, rules_json(s.scope_specification))
        } else {
            seq![]
        })) + "}"@,
{
    let site = if s.include_site {
        "true"@
    } else {
        "false"@
    };
    let m = render::json_member("include_site"@, render::json_bool(s.include_site));
    lemma_entry("include_site"@, site);
    let front = text_member("origin"@, s.origin) + seq![m];
    let front_text = (match s.origin {
        Some(origin) => entry("origin"@, render::json_string(origin)) + ","@,
        None => seq![],
    }) + entry("include_site"@, site);
    if let Some(origin) = s.origin {
        let o = render::json_member("origin"@, render::json_string(origin));
        lemma_entry("origin"@, render::json_string(origin));
        lemma_one_joined(o);
        lemma_join_one_more(seq![o], m);
        assert(text::join(front, ","@) =~= front_text);
    } else {
        assert(front =~= seq![m]);
        lemma_one_joined(m);
        assert(text::join(front, ","@) =~= front_text);
    }
    let rules: Seq<char> = if s.scope_specification.len() > 0 {
        ","@ + entry("scope_specification"@, rules_json(s.scope_specification))
    } else {
        seq![]
    };
    if s.scope_specification.len() > 0 {
        let last = render::json_member("scope_specification"@, rules_json(s.scope_specification));
        lemma_entry("scope_specification"@, rules_json(s.scope_specification));
        lemma_join_one_more(front, last);
    } else {
        assert(scope_members(s) =~= front);
        assert(front_text + rules =~= front_text);
    }
    lemma_in_braces(scope_members(s), front_text + rules);
}

/// The text of an instruction for a session that goes on: that it does, its id, the
/// refresh endpoint where there is one, the scope, the credentials, and who may
/// start a refresh where that is said.
pub proof fn law_instruction_text(i: InstructionView)
    requires
        i.continue_session,
    ensures
        instruction_json(i) == "{"@ + (entry("continue"@, "true"@) + further(
            "session_identifier"@,
            Some(i.session_identifier),
        ) + further("refresh_url"@, i.refresh_url) + (","@ + entry("scope"@, scope_json(i.scope)))
            + (","@ + entry("credentials"@, credentials_json(i.credentials))) + (if
        i.allowed_refresh_initiators.len() > 0 {
            ","@ + entry(
                "allowed_refresh_initiators"@,
                strings_json(i.allowed_refresh_initiators),
            )
        } else {
            seq![]
        })) + "}"@,
{
    let r = repr_of(i);
    let m = render::json_member("continue"@, render::json_bool(true));
    lemma_entry("continue"@, "true"@);
    lemma_one_joined(m);
    let p1 = seq![m];
    let p2 = p1 + text_member("session_identifier"@, Some(i.session_identifier));
    let p3 = p2 + text_member("refresh_url"@, i.refresh_url);
    let scope = render::json_member("scope"@, scope_json(i.scope));
    let p4 = p3 + seq![scope];
    let credentials = render::json_member("credentials"@, credentials_json(i.credentials));
    let p5 = p4 + seq![credentials];
    lemma_join_further(p1, "session_identifier"@, Some(i.session_identifier));
    lemma_join_further(p2, "refresh_url"@, i.refresh_url);
    lemma_entry("scope"@, scope_json(i.scope));
    lemma_join_one_more(p3, scope);
    lemma_entry("credentials"@, credentials_json(i.credentials));
    lemma_join_one_more(p4, credentials);
    let t5 = entry("continue"@, "true"@) + further(
        "session_identifier"@,
        Some(i.session_identifier),
    ) + further("refresh_url"@, i.refresh_url) + (","@ + entry("scope"@, scope_json(i.scope))) + (
    ","@ + entry("credentials"@, credentials_json(i.credentials)));
    assert(text::join(p5, ","@) == t5);
    if i.allowed_refresh_initiators.len() > 0 {
        let last = render::json_member(
            "allowed_refresh_initiators"@,
            strings_json(i.allowed_refresh_initiators),
        );
        lemma_entry(
            "allowed_refresh_initiators"@,
            strings_json(i.allowed_refresh_initiators),
        );
        lemma_join_one_more(p5, last);
        lemma_in_braces(
            repr_members(r),
            t5 + (","@ + entry(
                "allowed_refresh_initiators"@,
                strings_json(i.allowed_refresh_initiators),
            )),
        );
    } else {
        assert(repr_members(r) =~= p5);
        assert(t5 + Seq::<char>::empty() =~= t5);
        lemma_in_braces(repr_members(r), t5);
    }
}

/// Whether an array's text is that of its front with one more element at the end.
pub open spec fn one_more(whole: Seq<char>, front: Seq<char>, element: Seq<char>) -> bool {
    whole == front.drop_last() + ","@ + element + "]"@
}

proof fn lemma_array_one_more(elements: Seq<Seq<char>>, element: Seq<char>)
    ensures
        render::json_array(Seq::empty()) == "[]"@,
        render::json_array(seq![element]) == "["@ + element + "]"@,
        elements.len() > 0 ==> one_more(
            render::json_array(elements.push(element)),
            render::json_array(elements),
            element,
        ),
{
    reveal_strlit("[");
    reveal_strlit("]");
    reveal_strlit("[]");
    assert(render::json_array(Seq::empty()) =~= "[]"@);
    lemma_one_joined(element);
    assert(render::json_array(seq![element]) =~= "["@ + element + "]"@);
    if elements.len() > 0 {
        lemma_join_one_more(elements, element);
        let front = render::json_array(elements);
        assert(front.drop_last() =~= seq!['['] + text::join(elements, ","@));
        assert(render::json_array(elements.push(element)) =~= front.drop_last() + ","@ + element
            + "]"@);
    }
}

/// The texts of lists hold all elements, in order: nothing, one element between
/// brackets, and one more behind a comma.
pub proof fn law_lists_in_order(
    rules: Seq<RuleView>,
    rule: RuleView,
    credentials: Seq<CredentialView>,
    credential: CredentialView,
    strings: Seq<Seq<char>>,
    string: Seq<char>,
)
    ensures
        rules_json(Seq::empty()) == "[]"@,
        rules_json(seq![rule]) == "["@ + rule_json(rule) + "]"@,
        rules.len() > 0 ==> one_more(
            rules_json(rules.push(rule)),
            rules_json(rules),
            rule_json(rule),
        ),
        credentials_json(Seq::empty()) == "[]"@,
        credentials_json(seq![credential]) == "["@ + credential_json(credential) + "]"@,
        credentials.len() > 0 ==> one_more(
            credentials_json(credentials.push(credential)),
            credentials_json(credentials),
            credential_json(credential),
        ),
        strings_json(Seq::empty()) == "[]"@,
        strings_json(seq![string]) == "["@ + render::json_string(string) + "]"@,
        strings.len() > 0 ==> one_more(
            strings_json(strings.push(string)),
            strings_json(strings),
            render::json_string(string),
        ),
{
    let write_rule = |r: RuleView| rule_json(r);
    let write_credential = |c: CredentialView| credential_json(c);
    let write = |s: Seq<char>| render::json_string(s);
    let none = Seq::<Seq<char>>::empty();
    lemma_array_one_more(rules.map_values(write_rule), rule_json(rule));
    lemma_array_one_more(credentials.map_values(write_credential), credential_json(credential));
    lemma_array_one_more(strings.map_values(write), render::json_string(string));
    assert(Seq::<RuleView>::empty().map_values(write_rule) =~= none);
    assert(Seq::<CredentialView>::empty().map_values(write_credential) =~= none);
    assert(Seq::<Seq<char>>::empty().map_values(write) =~= none);
    assert(seq![rule].map_values(write_rule) =~= seq![rule_json(rule)]);
    assert(seq![credential].map_values(write_credential) =~= seq![credential_json(credential)]);
    assert(seq![string].map_values(write) =~= seq![render::json_string(string)]);
    assert(rules.push(rule).map_values(write_rule) =~= rules.map_values(write_rule).push(
        rule_json(rule),
    ));
    assert(credentials.push(credential).map_values(write_credential) =~= credentials.map_values(
        write_credential,
    ).push(credential_json(credential)));
    assert(strings.push(string).map_values(write) =~= strings.map_values(write).push(
        render::json_string(string),
    ));
}

/// What a wire representation leaves out is empty in the instruction, and what it
/// says is kept as it is; the other way nothing is left out of an instruction that
/// goes on, and everything of one that does not.
pub proof fn law_representation(r: ReprView, i: InstructionView)
    ensures
        instruction_of(r).continue_session == r.continue_session,
        instruction_of(r).refresh_url == r.refresh_url,
        instruction_of(r).allowed_refresh_initiators == r.allowed_refresh_initiators,
        r.session_identifier matches Some(id) ==> instruction_of(r).session_identifier == id,
        r.session_identifier is None ==> instruction_of(r).session_identifier.len() == 0,
        r.scope matches Some(scope) ==> instruction_of(r).scope == scope,
        r.scope is None ==> instruction_of(r).scope.origin is None && !instruction_of(
            r,
        ).scope.include_site && instruction_of(r).scope.scope_specification.len() == 0,
        r.credentials matches Some(list) ==> instruction_of(r).credentials == list,
        r.credentials is None ==> instruction_of(r).credentials.len() == 0,
        repr_of(i).continue_session == i.continue_session,
        i.continue_session ==> {
            &&& repr_of(i).session_identifier == Some(i.session_identifier)
            &&& repr_of(i).refresh_url == i.refresh_url
            &&& repr_of(i).scope == Some(i.scope)
            &&& repr_of(i).credentials == Some(i.credentials)
            &&& repr_of(i).allowed_refresh_initiators == i.allowed_refresh_initiators
        },
        !i.continue_session ==> {
            &&& repr_of(i).session_identifier is None
            &&& repr_of(i).refresh_url is None
            &&& repr_of(i).scope is None
            &&& repr_of(i).credentials is None
            &&& repr_of(i).allowed_refresh_initiators.len() == 0
        },
{
}

/// The instruction that ends a session says nothing but that.
pub proof fn law_termination_says_nothing_else()
    ensures
        !termination().continue_session,
        termination().session_identifier.len() == 0,
        termination().refresh_url is None,
        termination().scope.origin is None,
        !termination().scope.include_site,
        termination().scope.scope_specification.len() == 0,
        termination().credentials.len() == 0,
        termination().allowed_refresh_initiators.len() == 0,
{
}

} // verus!
