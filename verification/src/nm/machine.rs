//! The machine as the client of NetworkManager sees it: what can be asked of it,
//! and the record of what was.

use vstd::prelude::*;
use vstd::string::*;

use crate::config::AppConfig;
use crate::error::AppResult;
use crate::ip::IpAddr;
use crate::nm::health::TunnelHealth;
use crate::record::{grown, lemma_since_one};

verus! {

/// Something that was asked of the machine, with what it answered.
pub enum Step {
    /// `nmcli` was run with arguments, and printed something or failed.
    Nmcli { args: Seq<Seq<char>>, reply: AppResult<String> },
    /// The settings were read, where they could be.
    Load { settings: Option<AppConfig> },
    /// Domains were resolved.
    Resolve { domains: Seq<Seq<char>>, addresses: Seq<IpAddr> },
    /// It was looked whether an interface is there.
    Exists { interface: Seq<char>, found: bool },
    /// The peer behind an interface was waited for.
    Probe { interface: Seq<char>, health: TunnelHealth },
    /// Settings were saved.
    Save { config: AppConfig, outcome: AppResult<()> },
}

/// Whether the functions of a client may answer as a step says.
pub open spec fn came_from<
    N: Fn(&[String]) -> AppResult<String>,
    L: Fn() -> Option<AppConfig>,
    V: Fn(&Vec<String>) -> Vec<IpAddr>,
    X: Fn(&str) -> bool,
    P: Fn(&str) -> TunnelHealth,
    S: Fn(&AppConfig) -> AppResult<()>,
>(functions: (N, L, V, X, P, S), step: Step) -> bool {
    match step {
        Step::Nmcli { args, reply } => exists|a: &[String]|
            a.deep_view() == args && #[trigger] functions.0.ensures((a,), reply),
        Step::Load { settings } => functions.1.ensures((), settings),
        Step::Resolve { domains, addresses } => exists|d: &Vec<String>, r: Vec<IpAddr>|
            d.deep_view() == domains && r@ == addresses && #[trigger] functions.2.ensures((d,), r),
        Step::Exists { interface, found } => exists|i: &str|
            i@ == interface && #[trigger] functions.3.ensures((i,), found),
        Step::Probe { interface, health } => exists|i: &str|
            i@ == interface && #[trigger] functions.4.ensures((i,), health),
        Step::Save { config, outcome } => functions.5.ensures((&config,), outcome),
    }
}

/// A client of NetworkManager. It runs `nmcli`, reads and saves the settings,
/// resolves domains, looks for interfaces and waits for peers by way of the
/// functions that it is made with, and records each of these steps.
#[verifier::reject_recursive_types(N)]
#[verifier::reject_recursive_types(L)]
#[verifier::reject_recursive_types(V)]
#[verifier::reject_recursive_types(X)]
#[verifier::reject_recursive_types(P)]
#[verifier::reject_recursive_types(S)]
pub struct CliNmClient<
    N: Fn(&[String]) -> AppResult<String>,
    L: Fn() -> Option<AppConfig>,
    V: Fn(&Vec<String>) -> Vec<IpAddr>,
    X: Fn(&str) -> bool,
    P: Fn(&str) -> TunnelHealth,
    S: Fn(&AppConfig) -> AppResult<()>,
> {
    nmcli: N,
    load: L,
    resolve: V,
    exists_now: X,
    probe: P,
    save: S,
    taken: Ghost<Seq<Step>>,
}

impl<
    N: Fn(&[String]) -> AppResult<String>,
    L: Fn() -> Option<AppConfig>,
    V: Fn(&Vec<String>) -> Vec<IpAddr>,
    X: Fn(&str) -> bool,
    P: Fn(&str) -> TunnelHealth,
    S: Fn(&AppConfig) -> AppResult<()>,
> CliNmClient<N, L, V, X, P, S> {
    #[verifier::type_invariant]
    spec fn inv(self) -> bool {
        &&& forall|a: &[String]| self.nmcli.requires((a,))
        &&& self.load.requires(())
        &&& forall|d: &Vec<String>| self.resolve.requires((d,))
        &&& forall|i: &str| self.exists_now.requires((i,))
        &&& forall|i: &str| self.probe.requires((i,))
        &&& forall|c: &AppConfig| self.save.requires((c,))
    }

    /// The steps that were taken, in order.
    pub closed spec fn taken(self) -> Seq<Step> {
        self.taken@
    }

    /// The functions by way of which the steps are taken.
    pub closed spec fn functions(self) -> (N, L, V, X, P, S) {
        (self.nmcli, self.load, self.resolve, self.exists_now, self.probe, self.save)
    }

    /// Whether each step of the record is one that the functions may answer so.
    pub open spec fn answered(self) -> bool {
        forall|i: int|
            0 <= i < self.taken().len() ==> came_from(self.functions(), #[trigger] self.taken()[i])
    }

    /// Whether this is `before` after further steps: the functions and the steps
    /// that were taken stay, and the further ones are answered by the functions.
    pub open spec fn follows(self, before: CliNmClient<N, L, V, X, P, S>) -> bool {
        &&& grown(before.taken(), self.taken())
        &&& self.functions() == before.functions()
        &&& before.answered() ==> self.answered()
    }

    /// A client that took no step.
    pub fn new(nmcli: N, load: L, resolve: V, exists_now: X, probe: P, save: S) -> (r: CliNmClient<
        N,
        L,
        V,
        X,
        P,
        S,
    >)
        requires
            forall|a: &[String]| nmcli.requires((a,)),
            load.requires(()),
            forall|d: &Vec<String>| resolve.requires((d,)),
            forall|i: &str| exists_now.requires((i,)),
            forall|i: &str| probe.requires((i,)),
            forall|c: &AppConfig| save.requires((c,)),
        ensures
            r.taken() == Seq::<Step>::empty(),
            r.functions() == (nmcli, load, resolve, exists_now, probe, save),
    {
        CliNmClient { nmcli, load, resolve, exists_now, probe, save, taken: Ghost(Seq::empty()) }
    }

    /// Run `nmcli`.
    pub fn run_nmcli_owned(&mut self, args: &[String]) -> (r: AppResult<String>)
        ensures
            final(self).taken() == old(self).taken().push(
                Step::Nmcli { args: args.deep_view(), reply: r },
            ),
            final(self).follows(*old(self)),
            old(self).functions().0.ensures((args,), r),
    {
        proof {
            use_type_invariant(&*self);
        }
        let nmcli = &self.nmcli;
        let r = nmcli(args);
        assert(self.nmcli.ensures((args,), r));
        let ghost before = self.taken@;
        let ghost step = Step::Nmcli { args: args.deep_view(), reply: r };
        self.taken = Ghost(self.taken@.push(step));
        proof {
            lemma_since_one(before, step);
            assert(self.functions().0.ensures((args,), r));
            assert(came_from(self.functions(), step));
        }
        r
    }

    /// Read the settings.
    pub fn load_settings(&mut self) -> (r: Option<AppConfig>)
        ensures
            final(self).taken() == old(self).taken().push(Step::Load { settings: r }),
            final(self).follows(*old(self)),
            old(self).functions().1.ensures((), r),
    {
        proof {
            use_type_invariant(&*self);
        }
        let load = &self.load;
        let r = load();
        assert(self.load.ensures((), r));
        let ghost before = self.taken@;
        let ghost step = Step::Load { settings: r };
        self.taken = Ghost(self.taken@.push(step));
        proof {
            lemma_since_one(before, step);
            assert(came_from(self.functions(), step));
        }
        r
    }

    /// Resolve domains.
    pub fn resolve_domains(&mut self, domains: &Vec<String>) -> (r: Vec<IpAddr>)
        ensures
            final(self).taken() == old(self).taken().push(
                Step::Resolve { domains: domains.deep_view(), addresses: r@ },
            ),
            final(self).follows(*old(self)),
            old(self).functions().2.ensures((domains,), r),
    {
        proof {
            use_type_invariant(&*self);
        }
        let resolve = &self.resolve;
        let r = resolve(domains);
        assert(self.resolve.ensures((domains,), r));
        let ghost before = self.taken@;
        let ghost step = Step::Resolve { domains: domains.deep_view(), addresses: r@ };
        self.taken = Ghost(self.taken@.push(step));
        proof {
            lemma_since_one(before, step);
            assert(self.functions().2.ensures((domains,), r));
            assert(came_from(self.functions(), step));
        }
        r
    }

    /// Look whether an interface is there.
    pub fn interface_exists(&mut self, interface: &str) -> (r: bool)
        ensures
            final(self).taken() == old(self).taken().push(
                Step::Exists { interface: interface@, found: r },
            ),
            final(self).follows(*old(self)),
            old(self).functions().3.ensures((interface,), r),
    {
        proof {
            use_type_invariant(&*self);
        }
        let exists_now = &self.exists_now;
        let r = exists_now(interface);
        assert(self.exists_now.ensures((interface,), r));
        let ghost before = self.taken@;
        let ghost step = Step::Exists { interface: interface@, found: r };
        self.taken = Ghost(self.taken@.push(step));
        proof {
            lemma_since_one(before, step);
            assert(self.functions().3.ensures((interface,), step->found));
            assert(came_from(self.functions(), step));
        }
        r
    }

    /// Wait for the peer behind an interface.
    pub fn probe_interface(&mut self, interface: &str) -> (r: TunnelHealth)
        ensures
            final(self).taken() == old(self).taken().push(
                Step::Probe { interface: interface@, health: r },
            ),
            final(self).follows(*old(self)),
            old(self).functions().4.ensures((interface,), r),
    {
        proof {
            use_type_invariant(&*self);
        }
        let probe = &self.probe;
        let r = probe(interface);
        assert(self.probe.ensures((interface,), r));
        let ghost before = self.taken@;
        let ghost step = Step::Probe { interface: interface@, health: r };
        self.taken = Ghost(self.taken@.push(step));
        proof {
            lemma_since_one(before, step);
            assert(self.functions().4.ensures((interface,), r));
            assert(came_from(self.functions(), step));
        }
        r
    }

    /// Save settings.
    pub fn save_settings(&mut self, config: &AppConfig) -> (r: AppResult<()>)
        ensures
            final(self).taken() == old(self).taken().push(
                Step::Save { config: *config, outcome: r },
            ),
            final(self).follows(*old(self)),
            old(self).functions().5.ensures((config,), r),
    {
        proof {
            use_type_invariant(&*self);
        }
        let save = &self.save;
        let r = save(config);
        assert(self.save.ensures((config,), r));
        let ghost before = self.taken@;
        let ghost step = Step::Save { config: *config, outcome: r };
        self.taken = Ghost(self.taken@.push(step));
        proof {
            lemma_since_one(before, step);
            assert(came_from(self.functions(), step));
        }
        r
    }
}

} // verus!
