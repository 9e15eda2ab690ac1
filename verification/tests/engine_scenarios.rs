use bender_worker::config::WorkerConfig;
use bender_worker::task::{Task, TaskCommand, RenderCommand, TaskStatus};
use bender_worker::work::Work;
use bender_worker::work::commands::{DispatchPlan, ExitStatus};

fn test_config() -> WorkerConfig {
    let mut cfg = WorkerConfig::new();
    cfg.id = String::from("w1");
    cfg.blendpath = String::from("/blend");
    cfg.outpath = String::from("/out");
    cfg
}

fn renderer_task(id: &str, parent: &str, frame: u64) -> Task {
    Task::new(
        String::from(id),
        String::from(parent),
        TaskCommand::Renderer(RenderCommand::new(vec![frame])),
    )
}

/// Drive one task through scene fetch, optimization, construction and
/// selection, collecting the events the engine orders published.
fn run_to_running(w: &mut Work, events: &mut Vec<String>, now: u64) {
    let ids = w.update_parent_job_status(now);
    for id in ids.iter() {
        let ok = w.apply_job_status(id, "{'Job': 'Queued'}", now);
        assert!(ok);
    }
    let need = w.get_blendfiles();
    for id in need.iter() {
        assert!(w.download_should_run(now));
        let path = format!("/blend/{}.blend", id);
        w.apply_blendfile_fetch(id, Some(path), now);
    }
    w.add_paths_to_tasks();
    let dirs = w.output_dirs_needed();
    w.construct_commands(&dirs);
    let to_opt = w.blendfiles_to_optimize();
    for (id, _path) in to_opt.iter() {
        w.apply_optimize_result(id, true);
    }
    if w.select_next_task() {
        events.push(String::from("start"));
    }
}

#[test]
fn happy_path_single_frame() {
    // One task, delivery tag 7, frame 42; the renderer succeeds.
    let mut w = Work::new(test_config());
    let mut events: Vec<String> = Vec::new();
    let mut acks: Vec<u64> = Vec::new();
    let now: u64 = 1_000_000;

    assert!(w.should_add(300_000_000_000));
    w.receive_task(renderer_task("a1b2c3", "job-1", 42), 7);
    assert_eq!(w.tasks.len(), 1);
    assert_eq!(w.tasks[0].status, TaskStatus::Queued);

    run_to_running(&mut w, &mut events, now);
    assert!(w.current.is_some());

    let plan = w.prepare_command();
    let args = match plan {
        DispatchPlan::Spawn(args) => args,
        _ => panic!("expected a spawn plan"),
    };
    assert_eq!(args[0], "-b");
    assert_eq!(args[1], "/blend/job-1.blend");
    w.apply_spawn(true);

    // The renderer exits successfully.
    let tag = w.apply_exit_status(&ExitStatus::Finished, now + 5_000);
    assert_eq!(tag, Some(7));
    acks.push(7);
    events.push(String::from("finish"));

    // Stat and hash the produced frame (size 16, hash "h42").
    assert!(w.set_frame_filesize(&String::from("a1b2c3"), 42, 16));
    assert!(w.set_frame_hash(&String::from("a1b2c3"), 42, String::from("h42")));
    let stats = w.stat_finished();
    assert_eq!(stats, vec![String::from("a1b2c3")]);
    events.push(String::from("stat"));

    // Upload succeeds.
    assert!(w.upload_should_run(now + 6_000));
    let ups = w.upload_candidates();
    assert_eq!(ups, vec![String::from("a1b2c3")]);
    assert!(w.apply_upload_result(&String::from("a1b2c3"), true, now + 6_000));
    events.push(String::from("stat"));

    // The coordinator now reports the job finished.
    let later = now + 80_000;
    let ids = w.update_parent_job_status(later);
    assert_eq!(ids, vec![String::from("job-1")]);
    assert!(w.apply_job_status(&String::from("job-1"), "{'Job': 'Finished'}", later));

    // Frame reclamation lists the uploaded frame.
    let frames = w.cleanup_frames();
    assert_eq!(frames, vec![String::from("/out/job-1/00042.png")]);

    // Scene reclamation fires after the grace period.
    let cands = w.reclaim_candidates(later);
    assert_eq!(cands.len(), 1);
    assert_eq!(cands[0].0, "job-1");
    assert_eq!(cands[0].1, "/blend/job-1.blend");
    w.apply_reclaim(&String::from("job-1"), true, later);
    assert!(w.tasks.is_empty());
    assert!(w.blendfiles.is_empty());

    // At least one heartbeat, and exactly one ack bearing tag 7.
    assert!(w.beat_heart(later));
    events.push(String::from("heart"));
    assert_eq!(acks, vec![7]);
    assert_eq!(w.acked, vec![7]);
    assert_eq!(events, vec!["start", "finish", "stat", "stat", "heart"]);
}

#[test]
fn two_tasks_same_parent() {
    // Two tasks of one job: the scene is fetched once; both complete in
    // turn; the scene is reclaimed only after both are uploaded.
    let mut w = Work::new(test_config());
    let mut events: Vec<String> = Vec::new();
    let now: u64 = 2_000_000;

    w.receive_task(renderer_task("x1", "j", 1), 11);
    w.receive_task(renderer_task("x2", "j", 2), 12);

    let need = w.get_blendfiles();
    assert_eq!(need, vec![String::from("j")]);

    run_to_running(&mut w, &mut events, now);

    for (tid, tag, frame) in [("x1", 11u64, 1u64), ("x2", 12, 2)] {
        assert_eq!(w.current.as_ref().unwrap().id, tid);
        match w.prepare_command() {
            DispatchPlan::Spawn(_) => {}
            _ => panic!("expected a spawn plan"),
        }
        w.apply_spawn(true);
        assert_eq!(w.apply_exit_status(&ExitStatus::Finished, now), Some(tag));
        assert!(w.set_frame_filesize(&String::from(tid), frame, 10));
        assert!(w.set_frame_hash(&String::from(tid), frame, String::from("h")));

        // No reclamation while a task of the job is unfinished or
        // un-uploaded.
        assert!(w.reclaim_candidates(now + 100_000_000).is_empty());

        assert!(w.apply_upload_result(&String::from(tid), true, now));
        if w.select_next_task() {
            events.push(String::from("start"));
        }
    }

    let later = now + 200_000;
    let ids = w.update_parent_job_status(later);
    assert_eq!(ids, vec![String::from("j")]);
    assert!(w.apply_job_status(&String::from("j"), "{'Job': 'Finished'}", later));
    let cands = w.reclaim_candidates(later);
    assert_eq!(cands.len(), 1);
    w.apply_reclaim(&String::from("j"), true, later);
    assert!(w.tasks.is_empty());
    assert_eq!(w.acked, vec![11, 12]);
}

#[test]
fn deserialization_garbage_is_acked() {
    // An undecodable payload with tag 9: one ack, no task added.
    let mut w = Work::new(test_config());
    w.receive_garbage(9);
    assert_eq!(w.acked, vec![9]);
    assert!(w.tasks.is_empty());
    assert!(w.current.is_none());
}

#[test]
fn renderer_crash_errors_task_without_ack() {
    // The renderer exits non-zero: the task becomes Errored, the tag is
    // not acked, the optimized scene stays, and nothing is reclaimed.
    let mut w = Work::new(test_config());
    let mut events: Vec<String> = Vec::new();
    let now: u64 = 3_000_000;

    w.receive_task(renderer_task("a1b2c3", "job-1", 42), 7);
    run_to_running(&mut w, &mut events, now);
    match w.prepare_command() {
        DispatchPlan::Spawn(_) => {}
        _ => panic!("expected a spawn plan"),
    }
    w.apply_spawn(true);

    let tag = w.apply_exit_status(&ExitStatus::Errored(String::from("exit code 1")), now);
    assert_eq!(tag, None);
    assert!(w.acked.is_empty());
    assert_eq!(w.tasks[0].status, TaskStatus::Errored);

    assert!(w.has_blendfile_by_id(&String::from("job-1")));
    let later = now + 100_000_000;
    let ids = w.update_parent_job_status(later);
    for id in ids.iter() {
        assert!(w.apply_job_status(id, "{'Job': 'Finished'}", later));
    }
    assert!(w.reclaim_candidates(later).is_empty());
}

#[test]
fn upload_backoff_three_failures_then_success() {
    // The POST fails three times, then succeeds: three backoffs on the
    // upload limiter with widening intervals, then one success; the scene
    // is reclaimed only after the successful upload.
    let mut w = Work::new(test_config());
    let mut events: Vec<String> = Vec::new();
    let mut now: u64 = 4_000_000;

    w.receive_task(renderer_task("a1", "j1", 5), 21);
    run_to_running(&mut w, &mut events, now);
    match w.prepare_command() {
        DispatchPlan::Spawn(_) => {}
        _ => panic!("expected a spawn plan"),
    }
    w.apply_spawn(true);
    assert_eq!(w.apply_exit_status(&ExitStatus::Finished, now), Some(21));
    assert!(w.set_frame_filesize(&String::from("a1"), 5, 1));
    assert!(w.set_frame_hash(&String::from("a1"), 5, String::from("h")));

    for k in 1u64..=3 {
        assert!(w.upload_should_run(now));
        assert_eq!(w.upload_candidates(), vec![String::from("a1")]);
        assert!(!w.apply_upload_result(&String::from("a1"), false, now));
        // Backoff after k failures: 1000 + 1190 * k * k milliseconds.
        let backoff = 1000 + 1190 * k * k;
        assert!(!w.upload_should_run(now + backoff - 1));
        assert!(w.upload_should_run(now + backoff));
        now += backoff;
    }
    assert!(w.apply_upload_result(&String::from("a1"), true, now));
    assert!(w.upload_candidates().is_empty());

    let later = now + 200_000;
    let ids = w.update_parent_job_status(later);
    for id in ids.iter() {
        assert!(w.apply_job_status(id, "{'Job': 'Finished'}", later));
    }
    assert_eq!(w.reclaim_candidates(later).len(), 1);
}

#[test]
fn disk_low_suppresses_intake_only() {
    // Free space below the limit: intake refuses new tasks, but the task
    // in flight still progresses to completion.
    let mut w = Work::new(test_config());
    let mut events: Vec<String> = Vec::new();
    let now: u64 = 5_000_000;

    w.receive_task(renderer_task("a1", "j1", 1), 31);
    run_to_running(&mut w, &mut events, now);
    match w.prepare_command() {
        DispatchPlan::Spawn(_) => {}
        _ => panic!("expected a spawn plan"),
    }
    w.apply_spawn(true);

    // The free-space probe now reports less than disklimit.
    assert!(!w.should_add(100));
    assert!(!w.should_add(w.config.disklimit));

    assert_eq!(w.apply_exit_status(&ExitStatus::Finished, now), Some(31));
    assert_eq!(w.tasks[0].status, TaskStatus::Finished);
}

#[test]
fn scene_round_trip_reaches_optimized() {
    // A fresh engine with one task whose parent has no scene: after the
    // fetch succeeds and the optimizer succeeds, the scene is Optimized.
    let mut w = Work::new(test_config());
    let now: u64 = 6_000_000;
    w.receive_task(renderer_task("t1", "p1", 3), 41);

    assert!(!w.holds_parent_id(&String::from("p1")));
    let need = w.get_blendfiles();
    assert_eq!(need, vec![String::from("p1")]);
    w.apply_blendfile_fetch(&String::from("p1"), Some(String::from("/blend/p1.blend")), now);
    assert!(w.has_blendfile_by_id(&String::from("p1")));
    assert!(w.blendfile_is_downloaded(&w.tasks[0]));

    let ids = w.update_parent_job_status(now);
    for id in ids.iter() {
        assert!(w.apply_job_status(id, "{'Job': 'Running'}", now));
    }
    let to_opt = w.blendfiles_to_optimize();
    assert_eq!(to_opt.len(), 1);
    assert_eq!(to_opt[0].1, "/blend/p1.blend");
    w.apply_optimize_result(&String::from("p1"), true);
    assert!(w.blendfile_is_optimized(&w.tasks[0]));
    // Once optimized a scene never regresses.
    w.apply_optimize_result(&String::from("p1"), false);
    assert!(w.blendfile_is_optimized(&w.tasks[0]));
}

#[test]
fn single_flight_and_monotone_statuses() {
    // With two queued tasks, at most one runs at a time, and simulated
    // ticks never move a status backwards.
    let mut w = Work::new(test_config());
    let mut events: Vec<String> = Vec::new();
    let now: u64 = 7_000_000;

    w.receive_task(renderer_task("s1", "j", 1), 51);
    w.receive_task(renderer_task("s2", "j", 2), 52);
    run_to_running(&mut w, &mut events, now);

    // Exactly one task is in flight; no parked task is Running.
    assert!(w.current.is_some());
    for t in w.tasks.iter() {
        assert_ne!(t.status, TaskStatus::Running);
    }
    assert_eq!(w.current.as_ref().unwrap().status, TaskStatus::Running);

    // Selecting again while one runs changes nothing.
    assert!(!w.select_next_task());

    // Finish the first; its status is terminal and stays terminal.
    assert!(w.apply_exit_status(&ExitStatus::Finished, now).is_some());
    assert_eq!(w.tasks.iter().find(|t| t.id == "s1").unwrap().status, TaskStatus::Finished);
    assert!(w.select_next_task());
    assert_eq!(w.current.as_ref().unwrap().id, "s2");
    assert_eq!(w.tasks.iter().find(|t| t.id == "s1").unwrap().status, TaskStatus::Finished);
}

#[test]
fn split_failure_errors_current_task() {
    // A command line the splitter refuses (an unclosed quote) marks the
    // task in flight Errored.
    let mut w = Work::new(test_config());
    let mut events: Vec<String> = Vec::new();
    let now: u64 = 8_000_000;
    w.receive_task(renderer_task("q1", "j", 1), 61);
    let ids = w.update_parent_job_status(now);
    for id in ids.iter() {
        assert!(w.apply_job_status(id, "{'Job': 'Queued'}", now));
    }
    let need = w.get_blendfiles();
    for id in need.iter() {
        // A scene path holding a lone double quote leaves the command
        // line unsplittable.
        w.apply_blendfile_fetch(id, Some(String::from("/blend/has\"quote.blend")), now);
    }
    w.add_paths_to_tasks();
    let dirs = w.output_dirs_needed();
    w.construct_commands(&dirs);
    for (id, _) in w.blendfiles_to_optimize().iter() {
        w.apply_optimize_result(id, true);
    }
    assert!(w.select_next_task());
    events.push(String::from("start"));
    assert!(w.current.is_some());
    match w.prepare_command() {
        DispatchPlan::SplitFailed => {}
        _ => panic!("expected the split to fail"),
    }
    assert!(w.current.is_none());
    assert_eq!(w.tasks[0].status, TaskStatus::Errored);
}

#[test]
fn server_mode_marks_uploads_without_post() {
    // In server mode the frames already lie on shared storage: the upload
    // phase marks them uploaded at once.
    let mut cfg = test_config();
    cfg.mode = bender_worker::config::Mode::Server;
    let mut w = Work::new(cfg);
    let mut events: Vec<String> = Vec::new();
    let now: u64 = 9_000_000;

    w.receive_task(renderer_task("v1", "j", 4), 71);
    // Server mode reads the status from disk; the refresh obeys the
    // status limiter like any other.
    let ids = w.update_parent_job_status(now);
    assert_eq!(ids, vec![String::from("j")]);
    w.apply_job_status_token(&String::from("j"), String::from("Running"), now);
    assert!(w.update_parent_job_status(now).is_empty());
    assert_eq!(w.update_parent_job_status(now + 1_000), vec![String::from("j")]);
    w.apply_job_status_token(&String::from("j"), String::from("Running"), now + 1_000);
    let need = w.get_blendfiles();
    // Server mode discovers the scene in the job's directory.
    let entries = vec![String::from("notes.txt"), String::from("scene.blend")];
    let picked = bender_worker::work::blendfiles::pick_blend_entry(&entries).unwrap();
    assert_eq!(picked, "scene.blend");
    for id in need.iter() {
        w.apply_blendfile_read(id, Some(picked.clone()), now);
    }
    w.add_paths_to_tasks();
    let dirs = w.output_dirs_needed();
    w.construct_commands(&dirs);
    for (id, _) in w.blendfiles_to_optimize().iter() {
        w.apply_optimize_result(id, true);
    }
    if w.select_next_task() {
        events.push(String::from("start"));
    }
    match w.prepare_command() {
        DispatchPlan::Spawn(_) => {}
        _ => panic!("expected a spawn plan"),
    }
    w.apply_spawn(true);
    assert_eq!(w.apply_exit_status(&ExitStatus::Finished, now), Some(71));
    assert!(w.set_frame_filesize(&String::from("v1"), 4, 2));
    assert!(w.set_frame_hash(&String::from("v1"), 4, String::from("h")));
    let marked = w.upload_finished(now);
    assert_eq!(marked, vec![String::from("v1")]);
    assert!(w.upload_candidates().is_empty());
    // Server mode never reclaims.
    assert!(w.reclaim_candidates(now + 100_000_000).is_empty());
    assert!(w.cleanup_frames().is_empty());
}

#[test]
fn selection_needs_no_status_cache() {
    // Selection, construction and optimization depend only on the scene
    // and the command, not on the job-status cache.
    let mut w = Work::new(test_config());
    let now: u64 = 10_000_000;
    w.receive_task(renderer_task("n1", "p", 1), 81);
    for id in w.get_blendfiles().iter() {
        w.apply_blendfile_fetch(id, Some(String::from("/blend/p.blend")), now);
    }
    w.add_paths_to_tasks();
    let dirs = w.output_dirs_needed();
    w.construct_commands(&dirs);
    for (id, _) in w.blendfiles_to_optimize().iter() {
        w.apply_optimize_result(id, true);
    }
    assert!(w.parent_jobs.is_empty());
    assert!(w.select_next_task());
    assert_eq!(w.current.as_ref().unwrap().id, "n1");
}
