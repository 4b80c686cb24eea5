//! Apple's AirTraffic synchronisation in a worker process with a time limit.
use crate::device::DeviceTransport;
use crate::failure::Failure;
use vstd::prelude::*;

verus! {

/// The largest job that the worker reads.
pub const JOB_LIMIT: usize = 1_048_576;

/// The pause between two looks at the worker.
pub const POLL_MS: u64 = 50;

/// What the worker is to do.
pub struct SyncJob {
    /// The device.
    pub udid: String,
    /// How to reach it.
    pub transport: DeviceTransport,
    /// Identifier and destination of each asset, in order.
    pub assets: Vec<(String, String)>,
}

/// The texts of a run of assets.
pub open spec fn asset_texts(assets: Seq<(&str, &str)>) -> Seq<(Seq<char>, Seq<char>)> {
    Seq::new(assets.len(), |i: int| (assets[i].0@, assets[i].1@))
}

impl SyncJob {
    /// The texts of the assets.
    pub open spec fn asset_views(self) -> Seq<(Seq<char>, Seq<char>)> {
        Seq::new(self.assets@.len(), |i: int| (self.assets@[i].0@, self.assets@[i].1@))
    }
}

/// The seconds that the worker may take: one minute by cable, two over the
/// network, and in any case two seconds for each asset.
pub open spec fn allowance(transport: DeviceTransport, assets: nat) -> nat {
    let least: nat = if transport == DeviceTransport::Wifi {
        120
    } else {
        60
    };
    if 2 * assets > least {
        2 * assets
    } else {
        least
    }
}

/// A worker that is being watched.
pub struct Watch {
    /// When it must be done, in milliseconds of the watcher's clock.
    pub deadline_ms: u64,
}

/// What to do about the worker.
pub enum Verdict {
    /// Look again after a pause.
    Wait,
    /// It is done.
    Finished,
    /// It failed: stop it, wait until it is gone, and report.
    Stop(Failure),
}

/// The job for a worker, and how long to watch it from `now_ms` on.
pub fn sync_assets_via_airtraffic(
    udid: &str,
    transport: DeviceTransport,
    assets: &[(&str, &str)],
    now_ms: u64,
) -> (started: (SyncJob, Watch))
    requires
        now_ms + 1000 * allowance(transport, assets@.len()) <= u64::MAX,
    ensures
        started.0.udid@ == udid@,
        started.0.transport == transport,
        started.0.asset_views() == asset_texts(assets@),
        started.1.deadline_ms == now_ms + 1000 * allowance(transport, assets@.len()),
{
    let mut copies: Vec<(String, String)> = Vec::new();
    let mut i: usize = 0;
    while i < assets.len()
        invariant
            i <= assets@.len(),
            copies@.len() == i,
            forall|k: int|
                0 <= k < i ==> (#[trigger] copies@[k]).0@ == assets@[k].0@ && copies@[k].1@
                    == assets@[k].1@,
        decreases assets@.len() - i,
    {
        copies.push((assets[i].0.to_owned(), assets[i].1.to_owned()));
        i = i + 1;
    }
    let job = SyncJob { udid: udid.to_owned(), transport, assets: copies };
    assert(job.asset_views() =~= asset_texts(assets@));
    let least: u64 = if transport == DeviceTransport::Wifi {
        120
    } else {
        60
    };
    let count: u64 = assets.len() as u64;
    let seconds: u64 = if count > least / 2 {
        2 * count
    } else {
        least
    };
    (job, Watch { deadline_ms: now_ms + 1000 * seconds })
}

impl Watch {
    /// What to do when the worker has ended (`Some` of whether it succeeded) or
    /// still runs (`None`) at the time `now_ms`.
    pub fn poll(&self, ended: Option<bool>, now_ms: u64) -> (verdict: Verdict)
        ensures
            match ended {
                Some(true) => verdict is Finished,
                Some(false) => verdict matches Verdict::Stop(failure) && failure.says(
                    "Apple native sync worker failed; see preceding diagnostic"@,
                ),
                None => if now_ms < self.deadline_ms {
                    verdict is Wait
                } else {
                    verdict matches Verdict::Stop(failure) && failure.says(
                        "Apple native sync timed out; worker stopped before restoring Books state"@,
                    )
                },
            },
    {
        match ended {
            Some(true) => Verdict::Finished,
            Some(false) => Verdict::Stop(
                Failure::said("Apple native sync worker failed; see preceding diagnostic"),
            ),
            None => if now_ms < self.deadline_ms {
                Verdict::Wait
            } else {
                Verdict::Stop(
                    Failure::said(
                        "Apple native sync timed out; worker stopped before restoring Books state",
                    ),
                )
            },
        }
    }
}

/// A worker that never ends is stopped at the first look at or after its
/// deadline, and one that has succeeded is never stopped.
pub proof fn watch_is_bounded(watch: Watch, now_ms: u64, verdict: Verdict)
    requires
        now_ms >= watch.deadline_ms,
        call_ensures(Watch::poll, (&watch, None::<bool>, now_ms), verdict),
    ensures
        verdict is Stop,
{
}

/// Whether the worker may read a job of this size.
pub fn check_job(input: &[u8]) -> (checked: Result<(), Failure>)
    ensures
        match checked {
            Ok(()) => input@.len() <= JOB_LIMIT,
            Err(failure) => input@.len() > JOB_LIMIT && failure.says("Sync job too large"@),
        },
{
    if input.len() > JOB_LIMIT {
        return Err(Failure::said("Sync job too large"));
    }
    Ok(())
}

/// The line that the worker prints last, if any, and its exit code.
pub fn run_native_worker(result: &Result<(), Failure>) -> (report: (Option<String>, i32))
    ensures
        match result {
            Ok(()) => report.0 is None && report.1 == 0,
            Err(failure) => report.1 == 1 && (report.0 matches Some(line) && exists|words: Seq<char>|
             #[trigger]
                failure.tells(words) && line@ == "Native sync failed: "@ + words),
        },
{
    match result {
        Ok(()) => (None, 0),
        Err(failure) => {
            let said: String = failure.message();
            let line: String = "Native sync failed: ".to_owned().concat(said.as_str());
            assert(failure.tells(said@));
            (Some(line), 1)
        },
    }
}

/// A worker is given the device, the transport and every asset in order. It has one
/// minute by cable and two over the network, and two seconds for each asset where that
/// is more.
pub proof fn the_worker_has_its_time(
    udid: &str,
    transport: DeviceTransport,
    assets: &[(&str, &str)],
    now_ms: u64,
    started: (SyncJob, Watch),
)
    requires
        call_ensures(sync_assets_via_airtraffic, (udid, transport, assets, now_ms), started),
    ensures
        started.0.udid@ == udid@,
        started.0.transport == transport,
        started.0.assets@.len() == assets@.len(),
        forall|i: int|
            0 <= i < assets@.len() ==> (#[trigger] started.0.assets@[i]).0@ == assets@[i].0@
                && started.0.assets@[i].1@ == assets@[i].1@,
        started.1.deadline_ms >= now_ms + 2000 * assets@.len(),
        started.1.deadline_ms >= now_ms + (if transport == DeviceTransport::Wifi {
            120000int
        } else {
            60000int
        }),
        started.1.deadline_ms == now_ms + 2000 * assets@.len() || started.1.deadline_ms == now_ms
            + (if transport == DeviceTransport::Wifi {
            120000int
        } else {
            60000int
        }),
{
    let texts = asset_texts(assets@);
    assert(started.0.asset_views().len() == texts.len());
    assert forall|i: int| 0 <= i < assets@.len() implies (#[trigger] started.0.assets@[i]).0@
        == assets@[i].0@ && started.0.assets@[i].1@ == assets@[i].1@ by {
        assert(started.0.asset_views()[i] == texts[i]);
    }
}

/// A worker is waited for while it runs and has time, is done exactly where it has
/// succeeded, and is stopped otherwise.
pub proof fn a_worker_is_judged_by_its_end(
    watch: Watch,
    ended: Option<bool>,
    now_ms: u64,
    verdict: Verdict,
)
    requires
        call_ensures(Watch::poll, (&watch, ended, now_ms), verdict),
    ensures
        verdict is Finished <==> ended == Some(true),
        verdict is Wait <==> ended is None && now_ms < watch.deadline_ms,
{
}

/// A job of up to 1048576 bytes is read, and no larger one. A worker reports success by
/// an exit code of zero and silence, and failure by an exit code of one and a line.
pub proof fn jobs_and_reports(
    input: &[u8],
    checked: Result<(), Failure>,
    result: Result<(), Failure>,
    report: (Option<String>, i32),
)
    requires
        call_ensures(check_job, (input,), checked),
        call_ensures(run_native_worker, (&result,), report),
    ensures
        checked is Ok <==> input@.len() <= 1048576,
        report.1 == 0 <==> result is Ok,
        report.1 == 0 || report.1 == 1,
        report.0 is Some <==> result is Err,
{
}

} // verus!
