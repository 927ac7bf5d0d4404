//! Building one immutable command specification per resolved target.

use vstd::prelude::*;

use crate::text::chars_to_string;
use crate::text::string_chars;

verus! {

/// One remote host selected for a fleet operation, as the target resolver
/// hands it back: its instance id and whichever network addresses it has.
#[derive(Debug, PartialEq, Eq)]
pub struct ResolvedTarget {
    pub target_id: String,
    pub private_address: Option<String>,
    pub public_address: Option<String>,
}

/// The global options of one run, validated once at the boundary and passed
/// in as plain data.
pub struct RunOptions {
    /// Explicit per-invocation login name; takes precedence over the profile.
    pub login_user: Option<String>,
    /// Login name configured in the active profile, if any.
    pub profile_login_user: Option<String>,
    /// Prefer the target's public address over its private one.
    pub use_public_address: bool,
    /// Options handed through to the transport, in order.
    pub transport_options: Vec<String>,
    /// The remote command tokens, passed through verbatim; may be empty.
    pub remote_command_tokens: Vec<String>,
    /// Per-target deadline, measured from that target's own dispatch time.
    pub timeout_ms: u64,
}

/// Immutable description of the single remote command to run against one
/// target. Exactly one exists per resolved target and none shares mutable
/// state with another.
#[derive(Debug, PartialEq, Eq)]
pub struct CommandSpec {
    pub target_id: String,
    pub address: String,
    pub login_user: Option<String>,
    pub extra_transport_options: Vec<String>,
    pub remote_command_tokens: Vec<String>,
    pub timeout_ms: u64,
}

/// Why the command builder rejected a run.
#[derive(Debug, PartialEq, Eq)]
pub enum BuildError {
    /// The named target has no usable network address at all.
    AddressUnavailable { target_id: String },
}

/// The address a spec uses for `t`: the public address when the operator
/// asked for public addresses and the target has one, otherwise the private
/// address, otherwise whatever address is left; `None` when the target has
/// no address at all.
pub open spec fn chosen_address(t: ResolvedTarget, use_public_address: bool) -> Option<String> {
    if use_public_address && t.public_address is Some {
        t.public_address
    } else if t.private_address is Some {
        t.private_address
    } else if t.public_address is Some {
        t.public_address
    } else {
        None
    }
}

/// The login name a spec carries: the explicit per-invocation name wins over
/// the profile's name; with neither, the transport's own default is left to
/// decide.
pub open spec fn effective_login_user(opts: RunOptions) -> Option<String> {
    if opts.login_user is Some {
        opts.login_user
    } else if opts.profile_login_user is Some {
        opts.profile_login_user
    } else {
        None
    }
}

/// What one built spec must say for its target under the run's options.
pub open spec fn spec_matches_target(cs: CommandSpec, t: ResolvedTarget, opts: RunOptions) -> bool {
    &&& cs.target_id == t.target_id
    &&& chosen_address(t, opts.use_public_address) == Some(cs.address)
    &&& cs.login_user == effective_login_user(opts)
    &&& cs.extra_transport_options@ == opts.transport_options@
    &&& cs.remote_command_tokens@ == opts.remote_command_tokens@
    &&& cs.timeout_ms == opts.timeout_ms
}

/// The first target of `s` without any usable address, if there is one.
pub open spec fn first_unaddressable(s: Seq<ResolvedTarget>, use_public_address: bool) -> Option<
    ResolvedTarget,
>
    decreases s.len(),
{
    if s.len() == 0 {
        None
    } else if chosen_address(s.first(), use_public_address) is None {
        Some(s.first())
    } else {
        first_unaddressable(s.drop_first(), use_public_address)
    }
}

proof fn lemma_first_unaddressable_none(s: Seq<ResolvedTarget>, use_public_address: bool)
    requires
        forall|k: int|
            0 <= k < s.len() ==> chosen_address(#[trigger] s[k], use_public_address) is Some,
    ensures
        first_unaddressable(s, use_public_address) is None,
    decreases s.len(),
{
    if s.len() > 0 {
        assert(s.first() == s[0]);
        assert(forall|k: int|
            0 <= k < s.drop_first().len() ==> chosen_address(
                #[trigger] s.drop_first()[k],
                use_public_address,
            ) is Some) by {
            assert(forall|k: int| 0 <= k < s.drop_first().len() ==> s.drop_first()[k] == s[k + 1]);
        }
        lemma_first_unaddressable_none(s.drop_first(), use_public_address);
    }
}

proof fn lemma_first_unaddressable_at(s: Seq<ResolvedTarget>, use_public_address: bool, i: int)
    requires
        0 <= i < s.len(),
        forall|k: int| 0 <= k < i ==> chosen_address(#[trigger] s[k], use_public_address) is Some,
        chosen_address(s[i], use_public_address) is None,
    ensures
        first_unaddressable(s, use_public_address) == Some(s[i]),
    decreases i,
{
    assert(s.first() == s[0]);
    if i > 0 {
        assert(forall|k: int| 0 <= k < s.drop_first().len() ==> s.drop_first()[k] == s[k + 1]);
        lemma_first_unaddressable_at(s.drop_first(), use_public_address, i - 1);
    }
}

/// Clones a list of strings; the copy is equal to its source, value for value.
fn clone_strings(v: &Vec<String>) -> (r: Vec<String>)
    ensures
        r@ == v@,
{
    let mut r: Vec<String> = Vec::new();
    let mut i: usize = 0;
    while i < v.len()
        invariant
            0 <= i <= v.len(),
            r@ =~= v@.take(i as int),
        decreases v.len() - i,
    {
        r.push(v[i].clone());
        i = i + 1;
    }
    assert(r@ =~= v@);
    r
}

/// Clones an optional string; the copy is equal to its source.
fn clone_login(o: &Option<String>) -> (r: Option<String>)
    ensures
        r == *o,
{
    match o {
        Some(s) => Some(s.clone()),
        None => None,
    }
}

/// Builds one command specification per resolved target, in the targets'
/// own order, deterministically and with no side effects. Fails, all or
/// nothing, with `AddressUnavailable` for the first target that has no
/// usable address.
pub fn build_command_specs(targets: &Vec<ResolvedTarget>, opts: &RunOptions) -> (r: Result<
    Vec<CommandSpec>,
    BuildError,
>)
    ensures
        r matches Ok(specs) ==> specs@.len() == targets@.len() && forall|i: int|
            0 <= i < targets@.len() ==> spec_matches_target(
                #[trigger] specs@[i],
                targets@[i],
                *opts,
            ),
        r is Ok <==> first_unaddressable(targets@, opts.use_public_address) is None,
        r matches Err(e) ==> e matches BuildError::AddressUnavailable { target_id }
            && first_unaddressable(targets@, opts.use_public_address) matches Some(t)
            && target_id == t.target_id,
{
    let login: Option<String> = match &opts.login_user {
        Some(u) => Some(u.clone()),
        None => match &opts.profile_login_user {
            Some(u) => Some(u.clone()),
            None => None,
        },
    };
    assert(login == effective_login_user(*opts));
    let mut specs: Vec<CommandSpec> = Vec::new();
    let mut i: usize = 0;
    while i < targets.len()
        invariant
            0 <= i <= targets@.len(),
            specs@.len() == i,
            login == effective_login_user(*opts),
            forall|k: int|
                0 <= k < i ==> spec_matches_target(#[trigger] specs@[k], targets@[k], *opts),
            forall|k: int|
                0 <= k < i ==> chosen_address(
                    #[trigger] targets@[k],
                    opts.use_public_address,
                ) is Some,
        decreases targets@.len() - i,
    {
        let t = &targets[i];
        let chosen: Option<String> = if opts.use_public_address {
            match &t.public_address {
                Some(pa) => Some(pa.clone()),
                None => match &t.private_address {
                    Some(pr) => Some(pr.clone()),
                    None => None,
                },
            }
        } else {
            match &t.private_address {
                Some(pr) => Some(pr.clone()),
                None => match &t.public_address {
                    Some(pa) => Some(pa.clone()),
                    None => None,
                },
            }
        };
        assert(chosen == chosen_address(targets@[i as int], opts.use_public_address));
        match chosen {
            Some(address) => {
                specs.push(
                    CommandSpec {
                        target_id: t.target_id.clone(),
                        address,
                        login_user: clone_login(&login),
                        extra_transport_options: clone_strings(&opts.transport_options),
                        remote_command_tokens: clone_strings(&opts.remote_command_tokens),
                        timeout_ms: opts.timeout_ms,
                    },
                );
            },
            None => {
                proof {
                    lemma_first_unaddressable_at(targets@, opts.use_public_address, i as int);
                }
                return Err(BuildError::AddressUnavailable { target_id: t.target_id.clone() });
            },
        }
        i = i + 1;
    }
    proof {
        lemma_first_unaddressable_none(targets@, opts.use_public_address);
    }
    Ok(specs)
}

/// The destination token the transport connects to: `user@address`, or the
/// bare address when no login name was chosen.
pub open spec fn spec_destination(cs: CommandSpec) -> Seq<char> {
    match cs.login_user {
        Some(u) => u@ + "@"@ + cs.address@,
        None => cs.address@,
    }
}

/// The argument list handed to the transport executable for one spec: the
/// extra transport options in order, then the destination, then the remote
/// command tokens verbatim.
pub open spec fn spec_transport_arguments(cs: CommandSpec) -> Seq<Seq<char>> {
    cs.extra_transport_options@.map_values(|s: String| s@) + seq![spec_destination(cs)]
        + cs.remote_command_tokens@.map_values(|s: String| s@)
}

/// Builds the transport's argument list for one spec.
pub fn transport_arguments(cs: &CommandSpec) -> (args: Vec<String>)
    ensures
        args@.map_values(|s: String| s@) == spec_transport_arguments(*cs),
{
    let mut args = clone_strings(&cs.extra_transport_options);
    let destination: String = match &cs.login_user {
        Some(u) => {
            let mut d = u.clone();
            d.append("@");
            d.append(cs.address.as_str());
            d
        },
        None => cs.address.clone(),
    };
    assert(destination@ == spec_destination(*cs));
    args.push(destination);
    let mut i: usize = 0;
    while i < cs.remote_command_tokens.len()
        invariant
            0 <= i <= cs.remote_command_tokens@.len(),
            args@ =~= cs.extra_transport_options@ + seq![destination]
                + cs.remote_command_tokens@.take(i as int),
            destination@ == spec_destination(*cs),
        decreases cs.remote_command_tokens@.len() - i,
    {
        args.push(cs.remote_command_tokens[i].clone());
        assert(cs.remote_command_tokens@.take(i + 1) =~= cs.remote_command_tokens@.take(
            i as int,
        ).push(cs.remote_command_tokens@[i as int]));
        i = i + 1;
    }
    assert(cs.remote_command_tokens@.take(cs.remote_command_tokens@.len() as int)
        =~= cs.remote_command_tokens@);
    assert(args@.map_values(|s: String| s@) =~= spec_transport_arguments(*cs));
    args
}

/// How an option string is split into separate transport arguments: on
/// every single space, empty pieces kept, as the transport expects them.
pub open spec fn split_spaces(s: Seq<char>) -> Seq<Seq<char>>
    decreases s.len(),
{
    if s.len() == 0 {
        seq![Seq::<char>::empty()]
    } else if s.last() == ' ' {
        split_spaces(s.drop_last()).push(Seq::<char>::empty())
    } else {
        let r = split_spaces(s.drop_last());
        r.update(r.len() - 1, r.last().push(s.last()))
    }
}

pub proof fn lemma_split_spaces_len(s: Seq<char>)
    ensures
        split_spaces(s).len() >= 1,
    decreases s.len(),
{
    if s.len() > 0 {
        lemma_split_spaces_len(s.drop_last());
    }
}

/// Splits an option string on every space, keeping empty pieces.
pub fn split_on_spaces(s: &str) -> (r: Vec<String>)
    ensures
        r@.map_values(|p: String| p@) == split_spaces(s@),
{
    let v = string_chars(s);
    let mut pieces: Vec<Vec<char>> = Vec::new();
    pieces.push(Vec::new());
    let mut i: usize = 0;
    assert(v@.take(0) =~= Seq::<char>::empty());
    assert(pieces@.map_values(|p: Vec<char>| p@) =~= split_spaces(v@.take(0)));
    while i < v.len()
        invariant
            0 <= i <= v@.len(),
            pieces@.len() >= 1,
            pieces@.map_values(|p: Vec<char>| p@) == split_spaces(v@.take(i as int)),
        decreases v@.len() - i,
    {
        let c = v[i];
        proof {
            assert(v@.take(i + 1).drop_last() =~= v@.take(i as int));
            assert(v@.take(i + 1).last() == v@[i as int]);
        }
        if c == ' ' {
            pieces.push(Vec::new());
            assert(pieces@.map_values(|p: Vec<char>| p@) =~= split_spaces(v@.take(i + 1)));
        } else {
            let mut last = pieces.pop().unwrap();
            last.push(c);
            pieces.push(last);
            proof {
                let prev = split_spaces(v@.take(i as int));
                lemma_split_spaces_len(v@.take(i as int));
                assert(pieces@.map_values(|p: Vec<char>| p@) =~= prev.update(
                    prev.len() - 1,
                    prev.last().push(v@[i as int]),
                ));
            }
        }
        i = i + 1;
    }
    assert(v@.take(v@.len() as int) =~= v@);
    let mut r: Vec<String> = Vec::new();
    let mut k: usize = 0;
    while k < pieces.len()
        invariant
            0 <= k <= pieces@.len(),
            r@.len() == k,
            forall|m: int| 0 <= m < k ==> (#[trigger] r@[m])@ == pieces@[m]@,
        decreases pieces@.len() - k,
    {
        let piece = chars_to_string(&pieces[k]);
        r.push(piece);
        k = k + 1;
    }
    assert(r@.map_values(|p: String| p@) =~= pieces@.map_values(|p: Vec<char>| p@));
    r
}

/// The argument list for an interactive transport session: the address,
/// then the space-separated option pieces, then the single command string
/// if one was given.
pub open spec fn interactive_argv(
    address: Seq<char>,
    ssh_opts: Option<Seq<char>>,
    command: Option<Seq<char>>,
) -> Seq<Seq<char>> {
    let base = seq![address];
    let with_opts = match ssh_opts {
        Some(o) => base + split_spaces(o),
        None => base,
    };
    match command {
        Some(c) => with_opts.push(c),
        None => with_opts,
    }
}

/// Builds the argument list for an interactive transport session against
/// one address.
pub fn interactive_arguments(
    address: &String,
    ssh_opts: Option<&String>,
    command: Option<&String>,
) -> (r: Vec<String>)
    ensures
        r@.map_values(|p: String| p@) == interactive_argv(
            address@,
            match ssh_opts {
                Some(o) => Some(o@),
                None => None,
            },
            match command {
                Some(c) => Some(c@),
                None => None,
            },
        ),
{
    let mut r: Vec<String> = Vec::new();
    r.push(address.clone());
    match ssh_opts {
        Some(o) => {
            let mut pieces = split_on_spaces(o.as_str());
            let mut k: usize = 0;
            let ghost base = r@;
            while k < pieces.len()
                invariant
                    0 <= k <= pieces@.len(),
                    r@ =~= base + pieces@.take(k as int),
                decreases pieces@.len() - k,
            {
                r.push(pieces[k].clone());
                assert(pieces@.take(k + 1) =~= pieces@.take(k as int).push(
                    pieces@[k as int],
                ));
                k = k + 1;
            }
            assert(pieces@.take(pieces@.len() as int) =~= pieces@);
        },
        None => {},
    }
    match command {
        Some(c) => {
            r.push(c.clone());
        },
        None => {},
    }
    assert(r@.map_values(|p: String| p@) =~= interactive_argv(
        address@,
        match ssh_opts {
            Some(o) => Some(o@),
            None => None,
        },
        match command {
            Some(c) => Some(c@),
            None => None,
        },
    ));
    r
}

/// Why a run was aborted before any target was dispatched.
#[derive(Debug, PartialEq, Eq)]
pub enum ResolutionError {
    /// The named target could not be resolved; the whole run is abandoned.
    Unresolved { target_id: String, message: String },
}

/// Collects per-target resolutions all or nothing: every target must have
/// resolved, or the run aborts with the first failure, before anything is
/// dispatched.
pub fn collect_resolutions(ids: &Vec<String>, results: Vec<Result<ResolvedTarget, String>>) -> (r:
    Result<Vec<ResolvedTarget>, ResolutionError>)
    requires
        ids@.len() == results@.len(),
    ensures
        r is Ok <==> (forall|i: int| 0 <= i < results@.len() ==> #[trigger] results@[i] is Ok),
        r matches Ok(ts) ==> ts@.len() == results@.len() && forall|i: int|
            0 <= i < results@.len() ==> (#[trigger] results@[i] matches Ok(t) && ts@[i] == t),
        r matches Err(e) ==> e matches ResolutionError::Unresolved { target_id, message }
            && exists|i: int|
            0 <= i < results@.len() && ((#[trigger] results@[i]) matches Err(m) && message == m
                && target_id == ids@[i]) && (forall|k: int| 0 <= k < i ==> results@[k] is Ok),
    {
    let mut ts: Vec<ResolvedTarget> = Vec::new();
    let mut i: usize = 0;
    while i < results.len()
        invariant
            ids@.len() == results@.len(),
            0 <= i <= results@.len(),
            ts@.len() == i,
            forall|k: int|
                0 <= k < i ==> (#[trigger] results@[k] matches Ok(t) && ts@[k] == t),
        decreases results@.len() - i,
    {
        match &results[i] {
            Ok(t) => {
                let copy = ResolvedTarget {
                    target_id: t.target_id.clone(),
                    private_address: clone_login(&t.private_address),
                    public_address: clone_login(&t.public_address),
                };
                assert(copy == results@[i as int]->Ok_0);
                ts.push(copy);
            },
            Err(m) => {
                return Err(
                    ResolutionError::Unresolved {
                        target_id: ids[i].clone(),
                        message: m.clone(),
                    },
                );
            },
        }
        i = i + 1;
    }
    Ok(ts)
}

} // verus!
