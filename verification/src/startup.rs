//! How the relay is launched and brought up.
//!
//! [`Startup`] decides and never waits. Its caller performs one action at a time,
//! and says whether it worked.

use vstd::prelude::*;

use crate::audit::{AuditGuard, AuditRecord, Level};
use crate::config::RelayConfig;

verus! {

/// How the program was asked to run.
#[derive(Clone, Copy, Debug, PartialEq, Eq, Structural)]
pub enum LaunchMode {
    /// In the foreground.
    Console,
    /// Under the service manager.
    Service,
}

/// Some argument is `--console`.
pub open spec fn console_asked(args: Seq<String>) -> bool {
    exists|i: int| 0 <= i < args.len() && (#[trigger] args[i])@ == "--console"@
}

/// The launch mode that the command line asks for.
pub fn launch_mode(args: &Vec<String>) -> (mode: LaunchMode)
    ensures
        mode == if console_asked(args@) {
            LaunchMode::Console
        } else {
            LaunchMode::Service
        },
        mode == LaunchMode::Console <==> exists|i: int|
            0 <= i < args@.len() && (#[trigger] args@[i])@ == "--console"@,
{
    let console = "--console".to_owned();
    let mut i: usize = 0;
    while i < args.len()
        invariant
            i <= args@.len(),
            console@ == "--console"@,
            forall|j: int| 0 <= j < i ==> (#[trigger] args@[j])@ != "--console"@,
        decreases args@.len() - i,
    {
        if args[i] == console {
            return LaunchMode::Console;
        }
        i += 1;
    }
    LaunchMode::Service
}

/// What the caller is to do next.
#[derive(Debug)]
pub enum StartupAction {
    /// Write a record to the audit log.
    Audit { record: AuditRecord },
    /// Open the queue at `path`, or create it.
    OpenQueue { path: String },
    /// Build an HTTP client that shows the client certificate with this
    /// fingerprint, and talks only to the server with this one.
    BuildClient { client_cert_sha1: String, server_sha256_pin: String },
    /// Start the ingestion task on this pipe.
    StartIngestion { pipe_path: String },
    /// Start the disk guard.
    StartDiskGuard,
    /// Run the egress task towards this server.
    RunEgress { url: String },
    /// End with success.
    Finish,
    /// End with the error of the last action.
    Fail,
}

/// What a [`StartupAction`] asks for.
pub enum StartupActionView {
    Audit { record: crate::audit::AuditRecordView },
    OpenQueue { path: Seq<char> },
    BuildClient { client_cert_sha1: Seq<char>, server_sha256_pin: Seq<char> },
    StartIngestion { pipe_path: Seq<char> },
    StartDiskGuard,
    RunEgress { url: Seq<char> },
    Finish,
    Fail,
}

impl View for StartupAction {
    type V = StartupActionView;

    open spec fn view(&self) -> StartupActionView {
        match *self {
            StartupAction::Audit { record } => StartupActionView::Audit { record: record@ },
            StartupAction::OpenQueue { path } => StartupActionView::OpenQueue { path: path@ },
            StartupAction::BuildClient {
                client_cert_sha1,
                server_sha256_pin,
            } => StartupActionView::BuildClient {
                client_cert_sha1: client_cert_sha1@,
                server_sha256_pin: server_sha256_pin@,
            },
            StartupAction::StartIngestion { pipe_path } => StartupActionView::StartIngestion {
                pipe_path: pipe_path@,
            },
            StartupAction::StartDiskGuard => StartupActionView::StartDiskGuard,
            StartupAction::RunEgress { url } => StartupActionView::RunEgress { url: url@ },
            StartupAction::Finish => StartupActionView::Finish,
            StartupAction::Fail => StartupActionView::Fail,
        }
    }
}

/// The action that is under way.
#[derive(Clone, Copy, Debug, PartialEq, Eq, Structural)]
pub enum StartupPhase {
    Announcing,
    OpeningQueue,
    BuildingClient,
    StartingIngestion,
    StartingDiskGuard,
    Forwarding,
    Closing,
    Finished,
    Failed,
}

impl StartupPhase {
    /// The phase after this one, given whether its action worked. Opening the
    /// queue and building the client can fail, and end everything; audit records
    /// are written as far as that goes.
    pub open spec fn next(self, ok: bool) -> StartupPhase {
        match self {
            StartupPhase::Announcing => StartupPhase::OpeningQueue,
            StartupPhase::OpeningQueue => if ok {
                StartupPhase::BuildingClient
            } else {
                StartupPhase::Failed
            },
            StartupPhase::BuildingClient => if ok {
                StartupPhase::StartingIngestion
            } else {
                StartupPhase::Failed
            },
            StartupPhase::StartingIngestion => StartupPhase::StartingDiskGuard,
            StartupPhase::StartingDiskGuard => StartupPhase::Forwarding,
            StartupPhase::Forwarding => StartupPhase::Closing,
            StartupPhase::Closing => StartupPhase::Finished,
            StartupPhase::Finished => StartupPhase::Finished,
            StartupPhase::Failed => StartupPhase::Failed,
        }
    }

    /// The action of this phase under `cfg`.
    pub open spec fn action(self, cfg: RelayConfig) -> StartupActionView {
        match self {
            StartupPhase::Announcing => StartupActionView::Audit {
                record: crate::audit::record_of(
                    cfg.audit.audit_source_name@,
                    Level::Info,
                    1000,
                    "Relay Application Initializing with redb v4.1 storage."@,
                ),
            },
            StartupPhase::OpeningQueue => StartupActionView::OpenQueue {
                path: cfg.buffer.metrics_queue@,
            },
            StartupPhase::BuildingClient => StartupActionView::BuildClient {
                client_cert_sha1: cfg.tls.client_cert_sha1@,
                server_sha256_pin: cfg.tls.server_sha256_pin@,
            },
            StartupPhase::StartingIngestion => StartupActionView::StartIngestion {
                pipe_path: cfg.ingest.named_pipe_path@,
            },
            StartupPhase::StartingDiskGuard => StartupActionView::StartDiskGuard,
            StartupPhase::Forwarding => StartupActionView::RunEgress {
                url: cfg.forwarder.pingora_url@,
            },
            StartupPhase::Closing => StartupActionView::Audit {
                record: crate::audit::record_of(
                    cfg.audit.audit_source_name@,
                    Level::Info,
                    1001,
                    "Relay Application Shutdown Complete."@,
                ),
            },
            StartupPhase::Finished => StartupActionView::Finish,
            StartupPhase::Failed => StartupActionView::Fail,
        }
    }
}

/// Brings the relay up.
pub struct Startup {
    cfg: RelayConfig,
    phase: StartupPhase,
}

impl Startup {
    /// The configuration that the relay runs under.
    pub closed spec fn config(self) -> RelayConfig {
        self.cfg
    }

    /// The action that is under way.
    pub closed spec fn phase(self) -> StartupPhase {
        self.phase
    }

    /// The start under `cfg`, and its first action: to announce itself.
    pub fn new(cfg: RelayConfig) -> (started: (Self, StartupAction))
        ensures
            started.0.config() == cfg,
            started.0.phase() == StartupPhase::Announcing,
            started.1@ == StartupPhase::Announcing.action(cfg),
    {
        let startup = Self { cfg, phase: StartupPhase::Announcing };
        let action = startup.action();
        (startup, action)
    }

    /// Takes whether the last action worked, and gives the next one.
    pub fn step(&mut self, ok: bool) -> (action: StartupAction)
        ensures
            final(self).config() == old(self).config(),
            final(self).phase() == old(self).phase().next(ok),
            action@ == final(self).phase().action(old(self).config()),
    {
        self.phase = match self.phase {
            StartupPhase::Announcing => StartupPhase::OpeningQueue,
            StartupPhase::OpeningQueue if ok => StartupPhase::BuildingClient,
            StartupPhase::BuildingClient if ok => StartupPhase::StartingIngestion,
            StartupPhase::StartingIngestion => StartupPhase::StartingDiskGuard,
            StartupPhase::StartingDiskGuard => StartupPhase::Forwarding,
            StartupPhase::Forwarding => StartupPhase::Closing,
            StartupPhase::Closing => StartupPhase::Finished,
            StartupPhase::Finished => StartupPhase::Finished,
            _ => StartupPhase::Failed,
        };
        self.action()
    }

    fn action(&self) -> (action: StartupAction)
        ensures
            action@ == self.phase().action(self.config()),
    {
        let audit = AuditGuard::new(self.cfg.audit.audit_source_name.as_str());
        match self.phase {
            StartupPhase::Announcing => StartupAction::Audit {
                record: audit.log(
                    Level::Info,
                    1000,
                    "Relay Application Initializing with redb v4.1 storage.",
                ),
            },
            StartupPhase::OpeningQueue => StartupAction::OpenQueue {
                path: self.cfg.buffer.metrics_queue.clone(),
            },
            StartupPhase::BuildingClient => StartupAction::BuildClient {
                client_cert_sha1: self.cfg.tls.client_cert_sha1.clone(),
                server_sha256_pin: self.cfg.tls.server_sha256_pin.clone(),
            },
            StartupPhase::StartingIngestion => StartupAction::StartIngestion {
                pipe_path: self.cfg.ingest.named_pipe_path.clone(),
            },
            StartupPhase::StartingDiskGuard => StartupAction::StartDiskGuard,
            StartupPhase::Forwarding => StartupAction::RunEgress {
                url: self.cfg.forwarder.pingora_url.clone(),
            },
            StartupPhase::Closing => StartupAction::Audit {
                record: audit.log(Level::Info, 1001, "Relay Application Shutdown Complete."),
            },
            StartupPhase::Finished => StartupAction::Finish,
            StartupPhase::Failed => StartupAction::Fail,
        }
    }
}

/// The phase after the actions whose outcomes are `outcomes`.
pub open spec fn phase_after(outcomes: Seq<bool>) -> StartupPhase
    decreases outcomes.len(),
{
    if outcomes.len() == 0 {
        StartupPhase::Announcing
    } else {
        phase_after(outcomes.drop_last()).next(outcomes.last())
    }
}

/// Tasks have been started.
pub open spec fn tasks_started(phase: StartupPhase) -> bool {
    match phase {
        StartupPhase::StartingIngestion => true,
        StartupPhase::StartingDiskGuard => true,
        StartupPhase::Forwarding => true,
        StartupPhase::Closing => true,
        StartupPhase::Finished => true,
        _ => false,
    }
}

/// The queue is opened as the second action and the client is built as the third.
/// Tasks start exactly when both have worked, and the first of the two that does
/// not work ends everything for good.
pub proof fn law_tasks_need_queue_and_client(outcomes: Seq<bool>)
    ensures
        tasks_started(phase_after(outcomes)) <==> outcomes.len() >= 3 && outcomes[1] && outcomes[2],
        phase_after(outcomes) is Failed <==> (outcomes.len() >= 2 && !outcomes[1]) || (
        outcomes.len() >= 3 && !outcomes[2]),
    decreases outcomes.len(),
{
    reveal_with_fuel(phase_after, 4);
    if outcomes.len() > 3 {
        law_tasks_need_queue_and_client(outcomes.drop_last());
    } else if outcomes.len() == 3 {
        assert(outcomes.drop_last().drop_last().drop_last().len() == 0);
    } else if outcomes.len() == 2 {
        assert(outcomes.drop_last().drop_last().len() == 0);
    } else if outcomes.len() == 1 {
        assert(outcomes.drop_last().len() == 0);
    }
}

/// Where everything works, the actions come in this order, and the last two only
/// once the egress task has ended.
pub proof fn law_order_of_actions(outcomes: Seq<bool>)
    requires
        forall|i: int| 0 <= i < outcomes.len() ==> #[trigger] outcomes[i],
    ensures
        outcomes.len() == 0 ==> phase_after(outcomes) is Announcing,
        outcomes.len() == 1 ==> phase_after(outcomes) is OpeningQueue,
        outcomes.len() == 2 ==> phase_after(outcomes) is BuildingClient,
        outcomes.len() == 3 ==> phase_after(outcomes) is StartingIngestion,
        outcomes.len() == 4 ==> phase_after(outcomes) is StartingDiskGuard,
        outcomes.len() == 5 ==> phase_after(outcomes) is Forwarding,
        outcomes.len() == 6 ==> phase_after(outcomes) is Closing,
        outcomes.len() >= 7 ==> phase_after(outcomes) is Finished,
    decreases outcomes.len(),
{
    if outcomes.len() > 0 {
        assert(outcomes.last() == outcomes[outcomes.len() - 1]);
        assert forall|i: int| 0 <= i < outcomes.drop_last().len() implies
            #[trigger] outcomes.drop_last()[i] by {
            assert(outcomes[i]);
        }
        law_order_of_actions(outcomes.drop_last());
    }
}

/// Only an argument that is `--console`, letter for letter, asks for the foreground, and
/// it does so wherever it stands.
pub proof fn law_console_asked(arg: String, a: Seq<String>, b: Seq<String>)
    ensures
        !console_asked(Seq::empty()),
        console_asked(seq![arg]) <==> arg@ == seq!['-', '-', 'c', 'o', 'n', 's', 'o', 'l', 'e'],
        console_asked(a + b) <==> console_asked(a) || console_asked(b),
{
    reveal_strlit("--console");
    assert("--console"@ =~= seq!['-', '-', 'c', 'o', 'n', 's', 'o', 'l', 'e']);
    assert(seq![arg][0] == arg);
    let all = a + b;
    if console_asked(all) {
        let i = choose|i: int| 0 <= i < all.len() && (#[trigger] all[i])@ == "--console"@;
        if i < a.len() {
            assert(a[i] == all[i]);
        } else {
            assert(b[i - a.len()] == all[i]);
        }
    }
    if console_asked(a) {
        let i = choose|i: int| 0 <= i < a.len() && (#[trigger] a[i])@ == "--console"@;
        assert(all[i] == a[i]);
    }
    if console_asked(b) {
        let i = choose|i: int| 0 <= i < b.len() && (#[trigger] b[i])@ == "--console"@;
        assert(all[a.len() + i] == b[i]);
    }
}

/// What an action asks for is what it holds.
pub proof fn law_action_view(action: StartupAction)
    ensures
        action matches StartupAction::Audit { record } ==> {
            &&& action@ matches StartupActionView::Audit { record: said }
            &&& said.level == record.level
            &&& said.text == record.text@
        },
        action matches StartupAction::OpenQueue { path } ==> action@ == (
        StartupActionView::OpenQueue { path: path@ }),
        action matches StartupAction::BuildClient { client_cert_sha1, server_sha256_pin }
            ==> action@ == (StartupActionView::BuildClient {
            client_cert_sha1: client_cert_sha1@,
            server_sha256_pin: server_sha256_pin@,
        }),
        action matches StartupAction::StartIngestion { pipe_path } ==> action@ == (
        StartupActionView::StartIngestion { pipe_path: pipe_path@ }),
        action is StartDiskGuard ==> action@ is StartDiskGuard,
        action matches StartupAction::RunEgress { url } ==> action@ == (
        StartupActionView::RunEgress { url: url@ }),
        action is Finish ==> action@ is Finish,
        action is Fail ==> action@ is Fail,
{
}

/// What the actions name comes from the configuration, each from its own field, and
/// belongs to its own phase.
pub proof fn law_actions_use_configuration(cfg: RelayConfig, phase: StartupPhase)
    ensures
        phase.action(cfg) matches StartupActionView::OpenQueue { path } ==> phase is OpeningQueue
            && path == cfg.buffer.metrics_queue@,
        phase.action(cfg) matches StartupActionView::BuildClient {
            client_cert_sha1,
            server_sha256_pin,
        } ==> phase is BuildingClient && client_cert_sha1 == cfg.tls.client_cert_sha1@
            && server_sha256_pin == cfg.tls.server_sha256_pin@,
        phase.action(cfg) matches StartupActionView::StartIngestion { pipe_path } ==> phase
            is StartingIngestion && pipe_path == cfg.ingest.named_pipe_path@,
        phase.action(cfg) matches StartupActionView::RunEgress { url } ==> phase is Forwarding
            && url == cfg.forwarder.pingora_url@,
        phase is OpeningQueue <==> phase.action(cfg) is OpenQueue,
        phase is BuildingClient <==> phase.action(cfg) is BuildClient,
        phase is StartingIngestion <==> phase.action(cfg) is StartIngestion,
        phase is StartingDiskGuard <==> phase.action(cfg) is StartDiskGuard,
        phase is Forwarding <==> phase.action(cfg) is RunEgress,
        phase is Finished <==> phase.action(cfg) is Finish,
        phase is Failed <==> phase.action(cfg) is Fail,
{
}

/// The relay announces its start and its end in the audit log, as notes under the
/// configured source, with the numbers 1000 and 1001.
pub proof fn law_announcements(cfg: RelayConfig)
    ensures
        StartupPhase::Announcing.action(cfg) matches StartupActionView::Audit { record } && {
            &&& record.level == Level::Info
            &&& record.text == "[1000]["@ + cfg.audit.audit_source_name@ + "] "@
                + "Relay Application Initializing with redb v4.1 storage."@
        },
        StartupPhase::Closing.action(cfg) matches StartupActionView::Audit { record } && {
            &&& record.level == Level::Info
            &&& record.text == "[1001]["@ + cfg.audit.audit_source_name@ + "] "@
                + "Relay Application Shutdown Complete."@
        },
{
    let source = cfg.audit.audit_source_name@;
    let first = "Relay Application Initializing with redb v4.1 storage."@;
    let last = "Relay Application Shutdown Complete."@;
    reveal_strlit("[1000][");
    reveal_strlit("[1001][");
    reveal_strlit("] ");
    reveal_with_fuel(crate::text::decimal, 5);
    assert(crate::text::decimal(1000) =~= seq!['1', '0', '0', '0']);
    assert(crate::text::decimal(1001) =~= seq!['1', '0', '0', '1']);
    assert(crate::audit::log_line(1000, source, first) =~= "[1000]["@ + source + "] "@ + first);
    assert(crate::audit::log_line(1001, source, last) =~= "[1001]["@ + source + "] "@ + last);
}

/// One action after the other, and the outcome matters only where the queue is opened or
/// the client is built: a failure there ends everything, any other is passed over. What
/// has ended stays so.
pub proof fn law_one_after_the_other(ok: bool)
    ensures
        StartupPhase::Announcing.next(ok) is OpeningQueue,
        StartupPhase::OpeningQueue.next(true) is BuildingClient,
        StartupPhase::OpeningQueue.next(false) is Failed,
        StartupPhase::BuildingClient.next(true) is StartingIngestion,
        StartupPhase::BuildingClient.next(false) is Failed,
        StartupPhase::StartingIngestion.next(ok) is StartingDiskGuard,
        StartupPhase::StartingDiskGuard.next(ok) is Forwarding,
        StartupPhase::Forwarding.next(ok) is Closing,
        StartupPhase::Closing.next(ok) is Finished,
        StartupPhase::Finished.next(ok) is Finished,
        StartupPhase::Failed.next(ok) is Failed,
{
}

} // verus!
