use bender_worker::blend::Blend;
use bender_worker::blendfile::Blendfile;
use bender_worker::config::{Mode, WorkerConfig};
use bender_worker::ratelimit::RateLimiter;
use bender_worker::task::{Task, TaskCommand, RenderCommand, TaskStatus};
use bender_worker::textutil::{contains_sub, starts_with, status_token, u64_to_string, u64_to_padded5};
use bender_worker::work::Work;
use bender_worker::work::blendfiles::{is_blend_entry, pick_blend_entry};
use bender_worker::work::commands::DispatchPlan;
use bender_worker::work::optimize::optimize_output_ok;

#[test]
fn default_config_values() {
    let cfg = WorkerConfig::new();
    assert_eq!(cfg.bender_url, "http://0.0.0.0:8000");
    assert_eq!(cfg.disklimit, 200_000_000_000);
    assert_eq!(cfg.workload, 1);
    assert_eq!(cfg.grace_period, 60);
    assert_eq!(cfg.heart_rate_seconds, 60);
    assert!(cfg.mode.is_independent());
    assert!(!cfg.mode.is_server());
    assert!(cfg.is_valid());
    assert!(Mode::Server.is_server());
    assert!(!Mode::Server.is_independent());
}

#[test]
fn rate_limiter_backoff_values() {
    // After k consecutive failures the limiter waits 1000 + 1190 * k * k
    // milliseconds, reaching two minutes at k = 10.
    let mut rl = RateLimiter::new();
    assert!(rl.should_run(0));
    let t: u64 = 50_000;
    for k in 1u64..=10 {
        rl.set_last_failed(t);
        assert_eq!(rl.calculate_backoff(), 1000 + 1190 * k * k);
        assert!(!rl.should_run(t + 1000 + 1190 * k * k - 1));
        assert!(rl.should_run(t + 1000 + 1190 * k * k));
    }
    assert_eq!(rl.calculate_backoff(), 120_000);
    // The failure count saturates.
    rl.set_last_failed(t);
    assert_eq!(rl.calculate_backoff(), 120_000);
    // A success resets the count and applies the minimum interval.
    rl.set_last(t);
    assert!(!rl.should_run(t + 999));
    assert!(rl.should_run(t + 1000));
    assert_eq!(rl.calculate_backoff(), 1000);
}

#[test]
fn blendfile_records_frames() {
    let mut bf = Blendfile::new(String::from("/blend/a.blend"), 10_000);
    assert_eq!(bf.frames_rendered, 0);
    assert_eq!(bf.last_frame_duration(), None);
    bf.increment_frame(12_500);
    bf.increment_frame(13_500);
    bf.increment_frame(17_500);
    assert_eq!(bf.frames_rendered, 3);
    assert_eq!(bf.frame_durations, vec![2500, 1000, 4000]);
    assert_eq!(bf.last_frame_duration(), Some(4000));
    assert_eq!(bf.age(20_000), 10_000);
    assert_eq!(bf.since_last_access(20_000), 2_500);
    // Average rounds down; the median is the middle of the sorted run.
    assert_eq!(bf.average_duration(), 2500);
    assert_eq!(bf.mean_duration(), 2500);
    assert!(bf.is_over_grace_period(20_001, 2_500));
    assert!(!bf.is_over_grace_period(20_000, 2_500));
}

#[test]
fn blend_variant_queries() {
    let bf = Blendfile::new(String::from("/blend/a.blend"), 0);
    let d = Blend::Downloaded(bf);
    assert!(d.is_some());
    assert!(d.is_downloaded());
    assert!(!d.is_optimized());
    assert!(!d.is_none());
    let f = d.unwrap();
    let o = Blend::Optimized(f);
    assert!(o.is_optimized());
    assert!(!o.is_downloaded());
    assert!(Blend::Missing.is_none());
    assert!(!Blend::Missing.is_some());
}

#[test]
fn status_token_parses_quoted_field() {
    // The coordinator replies with a stringified dictionary; the token is
    // the text between the third and the fourth single quote.
    assert_eq!(status_token("{'Job': 'Queued'}"), Some(String::from("Queued")));
    assert_eq!(status_token("{'Job': 'Finished'}"), Some(String::from("Finished")));
    assert_eq!(status_token("{'Job': 'Finished!'} trailing"), Some(String::from("Finished!")));
    // Any deviation yields nothing rather than a guess.
    assert_eq!(status_token("{\"Job\": \"Queued\"}"), None);
    assert_eq!(status_token("{'Job': Queued}"), None);
    assert_eq!(status_token(""), None);
}

#[test]
fn text_helpers() {
    assert!(contains_sub("{'Job': 'Finished'}", "Finished"));
    assert!(!contains_sub("{'Job': 'Queued'}", "Finished"));
    assert!(contains_sub("abc", ""));
    assert!(!contains_sub("ab", "abc"));
    assert!(starts_with("blender -b", "blender "));
    assert!(!starts_with("blend", "blender"));
    assert_eq!(u64_to_string(0), "0");
    assert_eq!(u64_to_string(42), "42");
    assert_eq!(u64_to_string(9_876_543_210), "9876543210");
    assert_eq!(u64_to_padded5(0), "00000");
    assert_eq!(u64_to_padded5(42), "00042");
    assert_eq!(u64_to_padded5(99_999), "99999");
    assert_eq!(u64_to_padded5(123_456), "123456");
}

#[test]
fn blend_entry_detection() {
    assert!(is_blend_entry("scene.blend"));
    assert!(is_blend_entry("scene.blend1"));
    assert!(!is_blend_entry("scene.txt"));
    assert!(!is_blend_entry("sceneblend"));
    assert!(!is_blend_entry("scene.blend.bak"));
    let entries = vec![
        String::from("data.json"),
        String::from("shot.blend"),
        String::from("other.blend"),
    ];
    assert_eq!(pick_blend_entry(&entries), Some(String::from("shot.blend")));
    let none = vec![String::from("data.json")];
    assert_eq!(pick_blend_entry(&none), None);
    let empty: Vec<String> = Vec::new();
    assert_eq!(pick_blend_entry(&empty), None);
}

#[test]
fn optimizer_output_judgement() {
    // The side-car script emits JSON; output without any JSON line means
    // the optimization failed.
    let good = vec![String::from("Blender quit"), String::from("  {\"ok\": true}")];
    assert!(optimize_output_ok(&good));
    let bad = vec![String::from("Blender quit")];
    assert!(!optimize_output_ok(&bad));
    let empty: Vec<String> = Vec::new();
    assert!(!optimize_output_ok(&empty));
}

#[test]
fn task_status_transitions() {
    let mut t = Task::new(
        String::from("t"),
        String::from("p"),
        TaskCommand::Renderer(RenderCommand::new(vec![1])),
    );
    assert!(t.is_waiting());
    t.queue();
    assert!(t.is_queued());
    t.start();
    assert!(t.is_running());
    assert!(!t.is_ended());
    t.finish();
    assert!(t.is_finished());
    assert!(t.is_ended());
}

#[test]
fn command_construction_shape() {
    let mut t = Task::new(
        String::from("t"),
        String::from("p"),
        TaskCommand::Renderer(RenderCommand::new(vec![7, 8])),
    );
    assert!(!t.command.is_constructed());
    t.construct(&String::from("/blend/p.blend"), &String::from("/out/p"));
    assert!(t.command.is_constructed());
    match &t.command {
        TaskCommand::Renderer(rc) => {
            assert_eq!(
                rc.command_string.as_ref().unwrap(),
                "blender -b \"/blend/p.blend\" --disable-autoexec -o \"/out/p/#####\" -f 7 -f 8"
            );
            assert_eq!(rc.outputs.len(), 2);
            assert_eq!(rc.outputs[0].path, "/out/p/00007.png");
            assert_eq!(rc.outputs[1].path, "/out/p/00008.png");
            assert_eq!(rc.outputs[0].frame, 7);
            assert!(!rc.outputs[0].uploaded);
        }
        _ => panic!("expected a renderer command"),
    }
    let mut g = Task::new(String::from("g"), String::from("p"), TaskCommand::Generic {
        constructed: false,
    });
    g.construct(&String::from("s"), &String::from("o"));
    assert!(g.command.is_constructed());
}

#[test]
fn quoted_whitespace_survives_the_split() {
    // A scene path holding a space must come back from the splitter as a
    // single argument.
    let mut cfg = WorkerConfig::new();
    cfg.blendpath = String::from("/my scenes");
    cfg.outpath = String::from("/out");
    let mut w = Work::new(cfg);
    let now: u64 = 100_000;
    w.receive_task(
        Task::new(
            String::from("t1"),
            String::from("p"),
            TaskCommand::Renderer(RenderCommand::new(vec![1])),
        ),
        1,
    );
    let ids = w.update_parent_job_status(now);
    for id in ids.iter() {
        assert!(w.apply_job_status(id, "{'Job': 'Queued'}", now));
    }
    for id in w.get_blendfiles().iter() {
        w.apply_blendfile_fetch(id, Some(String::from("/my scenes/p scene.blend")), now);
    }
    w.add_paths_to_tasks();
    let dirs = w.output_dirs_needed();
    w.construct_commands(&dirs);
    for (id, _) in w.blendfiles_to_optimize().iter() {
        w.apply_optimize_result(id, true);
    }
    assert!(w.select_next_task());
    match w.prepare_command() {
        DispatchPlan::Spawn(args) => {
            assert_eq!(args[0], "-b");
            assert_eq!(args[1], "/my scenes/p scene.blend");
            assert_eq!(args[2], "--disable-autoexec");
        }
        _ => panic!("expected a spawn plan"),
    }
}

#[test]
fn heartbeat_obeys_the_rate() {
    let mut cfg = WorkerConfig::new();
    cfg.heart_rate_seconds = 2;
    let mut w = Work::new(cfg);
    // Never beat: beats at once.
    assert!(w.beat_heart(10_000));
    // Not due one millisecond early.
    assert!(!w.beat_heart(11_999));
    assert!(w.beat_heart(12_000));
    // Across a ten-second window with one call per second, the heart
    // beats at least ten-over-two times.
    let mut beats: u64 = 0;
    for k in 0u64..=10 {
        if w.beat_heart(20_000 + 1000 * k) {
            beats += 1;
        }
    }
    assert!(beats >= 5);
}

#[test]
fn generic_tasks_are_never_dispatched() {
    let mut w = Work::new(WorkerConfig::new());
    let now: u64 = 500_000;
    w.receive_task(
        Task::new(String::from("g1"), String::from("p"), TaskCommand::Generic {
            constructed: false,
        }),
        3,
    );
    let ids = w.update_parent_job_status(now);
    for id in ids.iter() {
        assert!(w.apply_job_status(id, "{'Job': 'Queued'}", now));
    }
    for id in w.get_blendfiles().iter() {
        w.apply_blendfile_fetch(id, Some(String::from("p.blend")), now);
    }
    w.add_paths_to_tasks();
    let dirs = w.output_dirs_needed();
    w.construct_commands(&dirs);
    for (id, _) in w.blendfiles_to_optimize().iter() {
        w.apply_optimize_result(id, true);
    }
    assert!(w.select_next_task());
    // A generic command is held, not spawned.
    match w.prepare_command() {
        DispatchPlan::Hold => {}
        _ => panic!("expected the dispatch to hold"),
    }
}

#[test]
fn intake_respects_workload() {
    let mut cfg = WorkerConfig::new();
    cfg.workload = 2;
    let mut w = Work::new(cfg);
    let free: u64 = 300_000_000_000;
    assert!(w.should_add(free));
    w.receive_task(
        Task::new(String::from("w1"), String::from("p"), TaskCommand::Renderer(
            RenderCommand::new(vec![1]),
        )),
        1,
    );
    assert!(w.should_add(free));
    w.receive_task(
        Task::new(String::from("w2"), String::from("p"), TaskCommand::Renderer(
            RenderCommand::new(vec![2]),
        )),
        2,
    );
    assert!(!w.should_add(free));
    assert!(w.has_task());
    assert!(w.knows_tag(1));
    assert!(!w.knows_tag(3));
    assert!(w.has_task_with_id(&String::from("w1")));
    assert!(!w.has_task_with_id(&String::from("w3")));
    let parents = w.unique_parent_ids();
    assert_eq!(parents, vec![String::from("p")]);
    let idx = w.get_tasks_for_parent_id(&String::from("p"));
    assert_eq!(idx, vec![0, 1]);
    let first = w.get_first_task_for_parent_id(&String::from("p")).unwrap();
    assert_eq!(first.id, "w1");
    assert!(w.get_first_task_for_parent_id(&String::from("q")).is_none());
}

#[test]
fn job_status_cache_queries() {
    let mut w = Work::new(WorkerConfig::new());
    let t: u64 = 1_000;
    assert!(!w.any_job_finished());
    assert!(w.all_jobs_finished());
    w.apply_job_status_token(&String::from("a"), String::from("Running"), t);
    w.apply_job_status_token(&String::from("b"), String::from("Finished"), t);
    assert!(w.any_job_finished());
    assert!(!w.all_jobs_finished());
    assert!(w.job_is_finished(&String::from("b")));
    assert!(!w.job_is_finished(&String::from("a")));
    assert!(!w.job_is_finished(&String::from("c")));
    w.apply_job_status_token(&String::from("a"), String::from("Finished"), t);
    assert!(w.all_jobs_finished());
    // A malformed reply registers a failure and leaves the cache alone.
    assert!(!w.apply_job_status(&String::from("a"), "no quotes here", t));
    assert!(w.job_is_finished(&String::from("a")));
    w.apply_job_status_error(t);
}
