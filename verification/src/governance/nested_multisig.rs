//! Nested multisig: teams of maintainers, a number of valid maintainer
//! signatures that approves a team, and a number of approved teams that
//! approves the whole.

use vstd::prelude::*;

use crate::governance::bip32::sha256_digest;
use crate::governance::error::{GovernanceError, GovernanceResult};
use crate::governance::signatures::{secp_ecdsa_valid, verify_signature, PublicKey, Signature};
use crate::text::{concat_str, decimal, decimal_string, string_of};

verus! {

/// A maintainer as values: GitHub name and public key bytes.
pub type MaintainerView = (Seq<char>, Seq<u8>);

/// A team as values: id, name and maintainers.
pub type TeamView = (Seq<char>, Seq<char>, Seq<MaintainerView>);

/// A signature as values: the signer's GitHub name and the signature bytes.
pub type SignedView = (Seq<char>, Seq<u8>);

/// Team structure for nested multisig.
#[derive(Debug, Clone)]
pub struct Team {
    pub id: String,
    pub name: String,
    pub maintainers: Vec<TeamMaintainer>,
}

/// A maintainer of a team.
#[derive(Debug, Clone)]
pub struct TeamMaintainer {
    pub github: String,
    pub public_key: PublicKey,
}

impl View for TeamMaintainer {
    type V = MaintainerView;

    open spec fn view(&self) -> MaintainerView {
        (self.github@, self.public_key@)
    }
}

impl View for Team {
    type V = TeamView;

    open spec fn view(&self) -> TeamView {
        (self.id@, self.name@, self.maintainers@.map_values(|m: TeamMaintainer| m@))
    }
}

/// The teams as values.
pub open spec fn teams_view(ts: Seq<Team>) -> Seq<TeamView> {
    ts.map_values(|t: Team| t@)
}

/// The signatures as values.
pub open spec fn signed_view(s: Seq<(String, Signature)>) -> Seq<SignedView> {
    s.map_values(|x: (String, Signature)| (x.0@, x.1@))
}

/// The first position from `i` on of a maintainer named `g`, or -1.
pub open spec fn maintainer_from(ms: Seq<MaintainerView>, g: Seq<char>, i: int) -> int
    decreases ms.len() - i,
{
    if i < 0 || i >= ms.len() {
        -1
    } else if ms[i].0 == g {
        i
    } else {
        maintainer_from(ms, g, i + 1)
    }
}

/// The position of the first maintainer named `g`, or -1.
pub open spec fn maintainer_index(ms: Seq<MaintainerView>, g: Seq<char>) -> int {
    maintainer_from(ms, g, 0)
}

/// The first team from `i` on that has a maintainer named `g`, or -1.
pub open spec fn team_from(ts: Seq<TeamView>, g: Seq<char>, i: int) -> int
    decreases ts.len() - i,
{
    if i < 0 || i >= ts.len() {
        -1
    } else if maintainer_index(ts[i].2, g) >= 0 {
        i
    } else {
        team_from(ts, g, i + 1)
    }
}

/// The first team that has a maintainer named `g`, or -1.
pub open spec fn team_of(ts: Seq<TeamView>, g: Seq<char>) -> int {
    team_from(ts, g, 0)
}

/// Whether a signature counts for team `t`: its signer's first team has
/// the id of team `t`, team `t` has a maintainer of that name, and the
/// signature is valid for the message digest under that maintainer's key.
pub open spec fn counts_for(ts: Seq<TeamView>, t: int, s: SignedView, digest: Seq<u8>) -> bool {
    let owner = team_of(ts, s.0);
    let k = maintainer_index(ts[t].2, s.0);
    &&& owner >= 0
    &&& ts[owner].0 == ts[t].0
    &&& k >= 0
    &&& secp_ecdsa_valid(s.1, digest, ts[t].2[k].1)
}

/// Whether some signature in `sigs` by the signer named `g` counts for
/// team `t`.
pub open spec fn signer_counted(
    ts: Seq<TeamView>,
    t: int,
    sigs: Seq<SignedView>,
    digest: Seq<u8>,
    g: Seq<char>,
) -> bool {
    exists|i: int| 0 <= i < sigs.len() && #[trigger] counts_for(ts, t, sigs[i], digest) && sigs[i].0 == g
}

/// The number of maintainers of team `t` with a signature that counts for
/// it: each signer is counted once, at the first of their signatures that
/// counts.
pub open spec fn valid_count(ts: Seq<TeamView>, t: int, sigs: Seq<SignedView>, digest: Seq<u8>) -> nat
    decreases sigs.len(),
{
    if sigs.len() == 0 {
        0
    } else {
        valid_count(ts, t, sigs.drop_last(), digest) + if counts_for(ts, t, sigs.last(), digest)
            && !signer_counted(ts, t, sigs.drop_last(), digest, sigs.last().0) {
            1nat
        } else {
            0nat
        }
    }
}

/// The number of the first `n` teams that are approved.
pub open spec fn approved_count(
    ts: Seq<TeamView>,
    n: int,
    sigs: Seq<SignedView>,
    digest: Seq<u8>,
    per_team: nat,
) -> nat
    decreases n,
{
    if n <= 0 {
        0
    } else {
        approved_count(ts, n - 1, sigs, digest, per_team) + if valid_count(ts, n - 1, sigs, digest)
            >= per_team {
            1nat
        } else {
            0nat
        }
    }
}

/// The signing maintainers of the approved teams among the first `n`.
pub open spec fn approved_signatures(
    ts: Seq<TeamView>,
    n: int,
    sigs: Seq<SignedView>,
    digest: Seq<u8>,
    per_team: nat,
) -> nat
    decreases n,
{
    if n <= 0 {
        0
    } else {
        approved_signatures(ts, n - 1, sigs, digest, per_team) + if valid_count(
            ts,
            n - 1,
            sigs,
            digest,
        ) >= per_team {
            valid_count(ts, n - 1, sigs, digest)
        } else {
            0nat
        }
    }
}

/// The message of the error for a team with too few maintainers.
pub open spec fn short_team_message(id: Seq<char>, has: nat, need: nat) -> Seq<char> {
    "Team "@ + id + " has "@ + decimal(has) + " maintainers, but "@ + decimal(need) + " required"@
}

/// The first team with fewer than `need` maintainers, or -1.
pub open spec fn short_team_from(ts: Seq<TeamView>, need: nat, i: int) -> int
    decreases ts.len() - i,
{
    if i < 0 || i >= ts.len() {
        -1
    } else if ts[i].2.len() < need {
        i
    } else {
        short_team_from(ts, need, i + 1)
    }
}

/// The approval of one team as values: id, name, maintainers signed,
/// maintainers required, approved.
pub type StatusView = (Seq<char>, Seq<char>, usize, usize, bool);

impl View for TeamApprovalStatus {
    type V = StatusView;

    open spec fn view(&self) -> StatusView {
        (self.team_id@, self.team_name@, self.maintainers_signed, self.maintainers_required, self.approved)
    }
}

/// What a verification of `sigs` over a message with digest `digest`
/// reports: each team's maintainers with a valid signature and whether
/// they reach the per-team threshold, how many teams are approved and how
/// many maintainers signed for them, and whether enough teams are approved.
pub open spec fn verify_outcome(
    cfg: (Seq<TeamView>, usize, usize),
    sigs: Seq<SignedView>,
    digest: Seq<u8>,
    res: NestedMultisigResult,
) -> bool {
    let ts = cfg.0;
    let per = cfg.2 as nat;
    &&& res.teams_approved == approved_count(ts, ts.len() as int, sigs, digest, per)
    &&& res.teams_required == cfg.1
    &&& res.maintainers_approved == approved_signatures(ts, ts.len() as int, sigs, digest, per)
    &&& res.maintainers_required == cfg.1 * cfg.2
    &&& res.inter_team_approved == (res.teams_approved >= cfg.1)
    &&& res.team_details@.len() == ts.len()
    &&& forall|t: int|
        0 <= t < ts.len() ==> #[trigger] res.team_details@[t]@ == (
            ts[t].0,
            ts[t].1,
            valid_count(ts, t, sigs, digest) as usize,
            cfg.2,
            valid_count(ts, t, sigs, digest) >= per,
        )
}

/// A team counts no more maintainers than there are signatures.
pub proof fn lemma_valid_count_bound(ts: Seq<TeamView>, t: int, sigs: Seq<SignedView>, digest: Seq<u8>)
    ensures
        valid_count(ts, t, sigs, digest) <= sigs.len(),
    decreases sigs.len(),
{
    if sigs.len() > 0 {
        lemma_valid_count_bound(ts, t, sigs.drop_last(), digest);
    }
}

/// A second copy of a signature that was already given adds nothing to a
/// team's count: each maintainer approves at most once.
pub proof fn lemma_repeated_signature(
    ts: Seq<TeamView>,
    t: int,
    sigs: Seq<SignedView>,
    digest: Seq<u8>,
    i: int,
)
    requires
        0 <= i < sigs.len(),
    ensures
        valid_count(ts, t, sigs.push(sigs[i]), digest) == valid_count(ts, t, sigs, digest),
{
    let more = sigs.push(sigs[i]);
    assert(more.drop_last() =~= sigs);
    assert(more.last() == sigs[i]);
    if counts_for(ts, t, sigs[i], digest) {
        assert(signer_counted(ts, t, sigs, digest, sigs[i].0));
    }
}

/// Signatures that do not count for team `t` (an unknown signer, a signer
/// of another team, or a signature that does not verify) leave its count
/// unchanged.
pub proof fn lemma_uncounted_signatures(
    ts: Seq<TeamView>,
    t: int,
    sigs: Seq<SignedView>,
    extra: Seq<SignedView>,
    digest: Seq<u8>,
)
    requires
        forall|k: int| 0 <= k < extra.len() ==> !#[trigger] counts_for(ts, t, extra[k], digest),
    ensures
        valid_count(ts, t, sigs + extra, digest) == valid_count(ts, t, sigs, digest),
    decreases extra.len(),
{
    if extra.len() == 0 {
        assert(sigs + extra =~= sigs);
    } else {
        let shorter = extra.drop_last();
        assert((sigs + extra).drop_last() =~= sigs + shorter);
        assert((sigs + extra).last() == extra[extra.len() - 1]);
        assert forall|k: int| 0 <= k < shorter.len() implies !#[trigger] counts_for(ts, t, shorter[k], digest) by {
            assert(shorter[k] == extra[k]);
        }
        lemma_uncounted_signatures(ts, t, sigs, shorter, digest);
    }
}

/// Teams whose counts agree give the same approvals.
proof fn lemma_same_counts_same_approvals(
    ts: Seq<TeamView>,
    n: int,
    a: Seq<SignedView>,
    b: Seq<SignedView>,
    digest: Seq<u8>,
    per: nat,
)
    requires
        forall|t: int| 0 <= t < n ==> #[trigger] valid_count(ts, t, a, digest) == valid_count(ts, t, b, digest),
    ensures
        approved_count(ts, n, a, digest, per) == approved_count(ts, n, b, digest, per),
        approved_signatures(ts, n, a, digest, per) == approved_signatures(ts, n, b, digest, per),
    decreases n,
{
    if n > 0 {
        assert(valid_count(ts, n - 1, a, digest) == valid_count(ts, n - 1, b, digest));
        lemma_same_counts_same_approvals(ts, n - 1, a, b, digest, per);
    }
}

/// Adding signatures that count for no team (unknown signers, or
/// signatures that do not verify under the signer's key) changes nothing
/// in the outcome of a verification.
pub proof fn lemma_verify_ignores_uncounted(
    cfg: (Seq<TeamView>, usize, usize),
    sigs: Seq<SignedView>,
    extra: Seq<SignedView>,
    digest: Seq<u8>,
    a: NestedMultisigResult,
    b: NestedMultisigResult,
)
    requires
        verify_outcome(cfg, sigs, digest, a),
        verify_outcome(cfg, sigs + extra, digest, b),
        forall|t: int, k: int|
            0 <= t < cfg.0.len() && 0 <= k < extra.len() ==> !#[trigger] counts_for(cfg.0, t, extra[k], digest),
    ensures
        b.teams_approved == a.teams_approved,
        b.maintainers_approved == a.maintainers_approved,
        b.inter_team_approved == a.inter_team_approved,
        b.team_details@.len() == a.team_details@.len(),
        forall|t: int| 0 <= t < b.team_details@.len() ==> #[trigger] b.team_details@[t]@ == a.team_details@[t]@,
{
    let ts = cfg.0;
    assert forall|t: int| 0 <= t < ts.len() implies #[trigger] valid_count(ts, t, sigs + extra, digest)
        == valid_count(ts, t, sigs, digest) by {
        assert forall|k: int| 0 <= k < extra.len() implies !#[trigger] counts_for(ts, t, extra[k], digest) by {
            assert(!counts_for(cfg.0, t, extra[k], digest));
        }
        lemma_uncounted_signatures(ts, t, sigs, extra, digest);
    }
    lemma_same_counts_same_approvals(ts, ts.len() as int, sigs + extra, sigs, digest, cfg.2 as nat);
    assert forall|t: int| 0 <= t < b.team_details@.len() implies #[trigger] b.team_details@[t]@
        == a.team_details@[t]@ by {
        assert(valid_count(ts, t, sigs + extra, digest) == valid_count(ts, t, sigs, digest));
    }
}

/// The position of the first maintainer named `g`.
fn find_maintainer(ms: &Vec<TeamMaintainer>, g: &String) -> (r: Option<usize>)
    ensures
        maintainer_index(ms@.map_values(|m: TeamMaintainer| m@), g@) < 0 ==> r is None,
        maintainer_index(ms@.map_values(|m: TeamMaintainer| m@), g@) >= 0 ==> (r matches Some(k)
            && k as int == maintainer_index(ms@.map_values(|m: TeamMaintainer| m@), g@)
            && k < ms@.len()),
{
    let ghost mv = ms@.map_values(|m: TeamMaintainer| m@);
    let mut i: usize = 0;
    while i < ms.len()
        invariant
            i <= ms@.len(),
            mv == ms@.map_values(|m: TeamMaintainer| m@),
            maintainer_from(mv, g@, 0) == maintainer_from(mv, g@, i as int),
        decreases ms@.len() - i,
    {
        assert(mv[i as int] == ms@[i as int]@);
        if ms[i].github == *g {
            return Some(i);
        }
        i = i + 1;
    }
    None
}


/// Whether a name occurs in `names`.
fn contains_name(names: &Vec<String>, g: &String) -> (r: bool)
    ensures
        r <==> exists|k: int| 0 <= k < names@.len() && #[trigger] names@[k]@ == g@,
{
    let mut i: usize = 0;
    while i < names.len()
        invariant
            i <= names@.len(),
            forall|k: int| 0 <= k < i ==> #[trigger] names@[k]@ != g@,
        decreases names@.len() - i,
    {
        if names[i] == *g {
            return true;
        }
        i = i + 1;
    }
    false
}

/// Nested multisig configuration.
#[derive(Debug)]
pub struct NestedMultisig {
    teams: Vec<Team>,
    teams_required: usize,
    maintainers_per_team_required: usize,
}

impl View for NestedMultisig {
    type V = (Seq<TeamView>, usize, usize);

    closed spec fn view(&self) -> (Seq<TeamView>, usize, usize) {
        (teams_view(self.teams@), self.teams_required, self.maintainers_per_team_required)
    }
}

/// Result of nested multisig verification.
#[derive(Debug, Clone)]
pub struct NestedMultisigResult {
    pub teams_approved: usize,
    pub teams_required: usize,
    pub maintainers_approved: usize,
    pub maintainers_required: usize,
    pub inter_team_approved: bool,
    pub team_details: Vec<TeamApprovalStatus>,
}

/// The approval of one team.
#[derive(Debug, Clone)]
pub struct TeamApprovalStatus {
    pub team_id: String,
    pub team_name: String,
    pub maintainers_signed: usize,
    pub maintainers_required: usize,
    pub approved: bool,
}

impl NestedMultisig {
    /// The thresholds can be met: at least one team and at most all of
    /// them, at least one maintainer per team and no more than any team
    /// has.
    #[verifier::type_invariant]
    spec fn thresholds_valid(self) -> bool {
        &&& 1 <= self.teams_required <= self.teams@.len()
        &&& self.maintainers_per_team_required >= 1
        &&& forall|i: int|
            0 <= i < self.teams@.len() ==> #[trigger] self.teams@[i].maintainers@.len()
                >= self.maintainers_per_team_required
    }

    /// Create a new nested multisig configuration: between one and all the
    /// teams must approve, at least one maintainer per team, and every team
    /// must have that many maintainers.
    pub fn new(teams: Vec<Team>, teams_required: usize, maintainers_per_team_required: usize) -> (r:
        GovernanceResult<Self>)
        ensures
            (teams_required == 0 || teams_required > teams@.len()) ==> (r matches Err(
                GovernanceError::InvalidThreshold { threshold, total },
            ) && threshold == teams_required && total == teams@.len()),
            (1 <= teams_required <= teams@.len() && maintainers_per_team_required == 0) ==> (
            r matches Err(GovernanceError::InvalidThreshold { threshold, total }) && threshold == 0
                && total == 7),
            (1 <= teams_required <= teams@.len() && maintainers_per_team_required >= 1) ==> ({
                let s = short_team_from(teams_view(teams@), maintainers_per_team_required as nat, 0);
                &&& s < 0 ==> (r matches Ok(m) && m@ == (
                    teams_view(teams@),
                    teams_required,
                    maintainers_per_team_required,
                ))
                &&& s >= 0 ==> (r matches Err(GovernanceError::InvalidMultisig(msg)) && msg@
                    == short_team_message(
                    teams@[s].id@,
                    teams@[s].maintainers@.len(),
                    maintainers_per_team_required as nat,
                ))
            }),
    {
        if teams_required == 0 || teams_required > teams.len() {
            return Err(
                GovernanceError::InvalidThreshold { threshold: teams_required, total: teams.len() },
            );
        }
        if maintainers_per_team_required == 0 {
            return Err(
                GovernanceError::InvalidThreshold {
                    threshold: maintainers_per_team_required,
                    total: 7,
                },
            );
        }
        let ghost tv = teams_view(teams@);
        let mut i: usize = 0;
        while i < teams.len()
            invariant
                i <= teams@.len(),
                1 <= teams_required <= teams@.len(),
                maintainers_per_team_required >= 1,
                tv == teams_view(teams@),
                short_team_from(tv, maintainers_per_team_required as nat, 0) == short_team_from(
                    tv,
                    maintainers_per_team_required as nat,
                    i as int,
                ),
                forall|j: int|
                    0 <= j < i ==> #[trigger] teams@[j].maintainers@.len()
                        >= maintainers_per_team_required,
            decreases teams@.len() - i,
        {
            let team = &teams[i];
            assert(tv[i as int].2.len() == team.maintainers@.len());
            if team.maintainers.len() < maintainers_per_team_required {
                let has = decimal_string(team.maintainers.len() as u64);
                let need = decimal_string(maintainers_per_team_required as u64);
                let m1 = concat_str("Team ", team.id.as_str());
                let m2 = concat_str(m1.as_str(), " has ");
                let m3 = concat_str(m2.as_str(), has.as_str());
                let m4 = concat_str(m3.as_str(), " maintainers, but ");
                let m5 = concat_str(m4.as_str(), need.as_str());
                let m6 = concat_str(m5.as_str(), " required");
                assert(m6@ =~= short_team_message(
                    team.id@,
                    team.maintainers@.len(),
                    maintainers_per_team_required as nat,
                ));
                return Err(GovernanceError::InvalidMultisig(m6));
            }
            i = i + 1;
        }
        Ok(NestedMultisig { teams, teams_required, maintainers_per_team_required })
    }
    /// Find which team a maintainer belongs to: the id of the first team
    /// with a maintainer of that name.
    fn find_maintainer_team(&self, github: &str) -> (r: Option<String>)
        ensures
            team_of(self@.0, github@) < 0 ==> r is None,
            team_of(self@.0, github@) >= 0 ==> (r matches Some(id) && id@ == self@.0[team_of(
                self@.0,
                github@,
            )].0),
    {
        let g = string_of(github);
        let ghost ts = self@.0;
        let mut i: usize = 0;
        while i < self.teams.len()
            invariant
                i <= self.teams@.len(),
                ts == teams_view(self.teams@),
                g@ == github@,
                team_from(ts, github@, 0) == team_from(ts, github@, i as int),
            decreases self.teams@.len() - i,
        {
            let team = &self.teams[i];
            assert(ts[i as int] == team@);
            if find_maintainer(&team.maintainers, &g).is_some() {
                return Some(team.id.clone());
            }
            i = i + 1;
        }
        None
    }

    /// The number of maintainers whose signature counts for team `t`.
    fn count_team_signatures(&self, t: usize, message: &[u8], signatures: &[(String, Signature)]) -> (v: usize)
        requires
            t < self@.0.len(),
        ensures
            v == valid_count(self@.0, t as int, signed_view(signatures@), sha256_digest(message@)),
            v <= signatures@.len(),
    {
        let ghost ts = self@.0;
        let ghost sigs = signed_view(signatures@);
        let ghost digest = sha256_digest(message@);
        let team = &self.teams[t];
        assert(ts[t as int] == team@);
        let mut signed: Vec<String> = Vec::new();
        let mut j: usize = 0;
        while j < signatures.len()
            invariant
                j <= signatures@.len(),
                t < ts.len(),
                ts == self@.0,
                ts[t as int] == team@,
                sigs == signed_view(signatures@),
                digest == sha256_digest(message@),
                signed@.len() == valid_count(ts, t as int, sigs.take(j as int), digest),
                signed@.len() <= j,
                forall|g: Seq<char>|
                    signer_counted(ts, t as int, sigs.take(j as int), digest, g) <==> exists|k: int|
                        0 <= k < signed@.len() && #[trigger] signed@[k]@ == g,
            decreases signatures@.len() - j,
        {
            proof {
                assert(sigs.take(j + 1).drop_last() =~= sigs.take(j as int));
                assert(sigs.take(j + 1).last() == sigs[j as int]);
            }
            let github = &signatures[j].0;
            let sig = &signatures[j].1;
            let mut counted = false;
            match self.find_maintainer_team(github.as_str()) {
                Some(id) => {
                    if id == team.id {
                        match find_maintainer(&team.maintainers, github) {
                            Some(k) => {
                                match verify_signature(sig, message, &team.maintainers[k].public_key) {
                                    Ok(valid) => {
                                        counted = valid;
                                    },
                                    Err(_) => {},
                                }
                            },
                            None => {},
                        }
                    }
                },
                None => {},
            }
            assert(counted == counts_for(ts, t as int, sigs[j as int], digest));
            assert(sigs[j as int].0 == github@);
            let ghost before = signed@;
            if counted {
                let seen = contains_name(&signed, github);
                if !seen {
                    signed.push(github.clone());
                }
            }
            proof {
                let pre = sigs.take(j as int);
                let post = sigs.take(j + 1);
                assert forall|i: int| 0 <= i < pre.len() implies #[trigger] post[i] == pre[i] by {}
                assert(post[j as int] == sigs[j as int]);
                assert forall|g: Seq<char>|
                    signer_counted(ts, t as int, post, digest, g) <==> exists|k: int|
                        0 <= k < signed@.len() && #[trigger] signed@[k]@ == g by {
                    let was = exists|k: int| 0 <= k < before.len() && #[trigger] before[k]@ == g;
                    assert(was <==> signer_counted(ts, t as int, pre, digest, g));
                    if signer_counted(ts, t as int, post, digest, g) {
                        let i = choose|i: int|
                            0 <= i < post.len() && #[trigger] counts_for(ts, t as int, post[i], digest)
                                && post[i].0 == g;
                        if i < j {
                            assert(counts_for(ts, t as int, pre[i], digest));
                            assert(signer_counted(ts, t as int, pre, digest, g));
                            let k = choose|k: int| 0 <= k < before.len() && #[trigger] before[k]@ == g;
                            assert(signed@[k] == before[k]);
                        } else {
                            assert(counted);
                            if !was {
                                assert(signed@[before.len() as int]@ == g);
                            } else {
                                let k = choose|k: int| 0 <= k < before.len() && #[trigger] before[k]@ == g;
                                assert(signed@[k] == before[k]);
                            }
                        }
                    }
                    if exists|k: int| 0 <= k < signed@.len() && #[trigger] signed@[k]@ == g {
                        let k = choose|k: int| 0 <= k < signed@.len() && #[trigger] signed@[k]@ == g;
                        if k < before.len() {
                            assert(before[k]@ == g);
                            let i = choose|i: int|
                                0 <= i < pre.len() && #[trigger] counts_for(ts, t as int, pre[i], digest)
                                    && pre[i].0 == g;
                            assert(counts_for(ts, t as int, post[i], digest));
                        } else {
                            assert(g == github@);
                            assert(counts_for(ts, t as int, post[j as int], digest));
                        }
                    }
                }
            }
            j = j + 1;
        }
        proof {
            assert(sigs.take(j as int) =~= sigs);
        }
        signed.len()
    }

    /// Verify nested multisig signatures: each signature is grouped under
    /// the first team that has its signer, each team counts its maintainers
    /// with a valid signature (each once, however many copies they sent), a
    /// team with enough of them is approved, and enough approved teams
    /// approve the whole.
    pub fn verify(&self, message: &[u8], signatures: &[(String, Signature)]) -> (r: GovernanceResult<
        NestedMultisigResult,
    >)
        requires
            self@.0.len() * signatures@.len() <= usize::MAX,
            self@.1 * self@.2 <= usize::MAX,
        ensures
            r is Ok,
            r matches Ok(res) ==> verify_outcome(self@, signed_view(signatures@), sha256_digest(message@), res),
    {
        proof {
            use_type_invariant(self);
        }
        let ghost ts = self@.0;
        let ghost sigs = signed_view(signatures@);
        let ghost digest = sha256_digest(message@);
        let ghost per = self.maintainers_per_team_required as nat;
        let mut teams_approved: usize = 0;
        let mut total_maintainers_approved: usize = 0;
        let mut team_details: Vec<TeamApprovalStatus> = Vec::new();
        let mut t: usize = 0;
        while t < self.teams.len()
            invariant
                t <= ts.len(),
                ts == self@.0,
                ts.len() == self.teams@.len(),
                ts.len() * signatures@.len() <= usize::MAX,
                sigs == signed_view(signatures@),
                sigs.len() == signatures@.len(),
                digest == sha256_digest(message@),
                per == self.maintainers_per_team_required,
                teams_approved == approved_count(ts, t as int, sigs, digest, per),
                teams_approved <= t,
                total_maintainers_approved == approved_signatures(ts, t as int, sigs, digest, per),
                total_maintainers_approved <= t * sigs.len(),
                team_details@.len() == t,
                forall|i: int|
                    0 <= i < t ==> #[trigger] team_details@[i]@ == (
                        ts[i].0,
                        ts[i].1,
                        valid_count(ts, i, sigs, digest) as usize,
                        self.maintainers_per_team_required,
                        valid_count(ts, i, sigs, digest) >= per,
                    ),
            decreases ts.len() - t,
        {
            let team = &self.teams[t];
            assert(ts[t as int] == team@);
            let valid_sigs = self.count_team_signatures(t, message, signatures);
            let team_approved = valid_sigs >= self.maintainers_per_team_required;
            proof {
                let l = sigs.len() as int;
                assert((t + 1) * l == t * l + l) by (nonlinear_arith);
                assert((t + 1) * l <= ts.len() * l) by (nonlinear_arith)
                    requires
                        t + 1 <= ts.len(),
                        l >= 0,
                ;
            }
            if team_approved {
                teams_approved = teams_approved + 1;
                total_maintainers_approved = total_maintainers_approved + valid_sigs;
            }
            let status = TeamApprovalStatus {
                team_id: team.id.clone(),
                team_name: team.name.clone(),
                maintainers_signed: valid_sigs,
                maintainers_required: self.maintainers_per_team_required,
                approved: team_approved,
            };
            team_details.push(status);
            t = t + 1;
        }
        let inter_team_approved = teams_approved >= self.teams_required;
        let total_maintainers_required = self.teams_required * self.maintainers_per_team_required;
        Ok(
            NestedMultisigResult {
                teams_approved,
                teams_required: self.teams_required,
                maintainers_approved: total_maintainers_approved,
                maintainers_required: total_maintainers_required,
                inter_team_approved,
                team_details,
            },
        )
    }
}

} // verus!
