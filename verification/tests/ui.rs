//! Messages, progress and tables.
use pocker::docker::api::ImageSummary;
use pocker::image_view::{
    format_created, image_rows, image_table, missing_image_error, short_image_id, split_repo_tag,
};
use pocker::retry::Delay;
use pocker::ui::{
    aggregate_layer_state_for_status, aggregate_message, aggregate_render, layer_progress_char,
    linux_process_is_foreground_tty_job_from_stat, paint, paint_aggregate_strip,
    plain_image_message, plain_layer_download_message, plain_layer_message, plain_line,
    short_digest, warning_message, AggregateLayer, AggregateLayerState, AggregateProgress,
    LayerRenderAdvance, LayerRenders, Style,
};
use pocker::units::format_bytes;

#[test]
fn linux_foreground_process_group_is_detected() {
    let stat = "1234 (pocker) S 1200 1234 1200 34816 1234 0 0 0 0 0 0 0 0 20 0 1 0 1 0 0 0 0 0 0 0 0 0 0 0 0 0 0 0 0 0 0 0 0 0 0 0 0 0 0 0 0 0 0 0 0 0";
    assert_eq!(
        linux_process_is_foreground_tty_job_from_stat(stat),
        Some(true)
    );
}

#[test]
fn linux_background_process_group_is_detected() {
    let stat = "1234 (pocker) T 1200 1234 1200 34816 5678 0 0 0 0 0 0 0 0 20 0 1 0 1 0 0 0 0 0 0 0 0 0 0 0 0 0 0 0 0 0 0 0 0 0 0 0 0 0 0 0 0 0 0 0 0 0";
    assert_eq!(
        linux_process_is_foreground_tty_job_from_stat(stat),
        Some(false)
    );
}

#[test]
fn a_process_without_a_terminal_counts_as_foreground() {
    assert_eq!(
        linux_process_is_foreground_tty_job_from_stat("1 (a) S 1 2 3 0 -1 0"),
        Some(true)
    );
    assert_eq!(linux_process_is_foreground_tty_job_from_stat("garbage"), None);
}

#[test]
fn plain_download_message_describes_new_download() {
    assert_eq!(
        plain_layer_download_message("sha256:abcdef0123456789", 1_536, 0),
        "layer abcdef012345: Downloading 1.5 KiB"
    );
}

#[test]
fn plain_download_message_describes_resume_offset() {
    assert_eq!(
        plain_layer_download_message("sha256:abcdef0123456789", 2_048, 512),
        "layer abcdef012345: Resuming 512 B/2.0 KiB"
    );
}

#[test]
fn plain_messages_name_what_they_are_about() {
    assert_eq!(short_digest("sha256:abcdef0123456789"), "abcdef012345");
    assert_eq!(short_digest("short"), "short");
    assert_eq!(
        plain_layer_message("sha256:abcdef0123456789", "Done"),
        "layer abcdef012345: Done"
    );
    assert!(plain_image_message("alpine", "Pulled").contains("alpine"));
    assert_eq!(plain_line(None, "hello"), "hello");
    assert!(plain_line(Some("web"), "hello").contains("web"));
    assert!(warning_message("careful", false).contains("careful"));
}

#[test]
fn colors_are_painted_only_where_they_are_wanted() {
    assert_eq!(paint("x", Style::Green, false), "x");
    let green = paint("x", Style::Green, true);
    assert!(green.starts_with("\u{1b}["));
    assert!(green.ends_with("x\u{1b}[0m"));
    assert_ne!(green, paint("x", Style::Yellow, true));
    assert_eq!(
        paint_aggregate_strip("ab", &vec![AggregateLayerState::Complete, AggregateLayerState::Waiting], false),
        "ab"
    );
}

#[test]
fn byte_counts_use_binary_units() {
    for (bytes, text) in [
        (0, "0 B"),
        (1_023, "1023 B"),
        (1_024, "1.0 KiB"),
        (1_536, "1.5 KiB"),
        (1_048_575, "1024 KiB"),
        (1_048_576, "1.0 MiB"),
        (1_288_490_188, "1.2 GiB"),
        (u64::MAX, "16777216 TiB"),
    ] {
        assert_eq!(format_bytes(bytes), text);
    }
}

#[test]
fn byte_counts_round_like_doubles() {
    let units = ["B", "KiB", "MiB", "GiB", "TiB"];
    let mut seed: u64 = 0x9e37_79b9_7f4a_7c15;
    for shift in 0..64 {
        for _ in 0..200 {
            seed = seed.wrapping_mul(6364136223846793005).wrapping_add(1442695040888963407);
            let bytes = seed >> shift;
            let mut value = bytes as f64;
            let mut unit = 0;
            while value >= 1024.0 && unit < units.len() - 1 {
                value /= 1024.0;
                unit += 1;
            }
            let expected = if unit == 0 {
                format!("{bytes} {}", units[unit])
            } else if value >= 10.0 {
                format!("{value:.0} {}", units[unit])
            } else {
                format!("{value:.1} {}", units[unit])
            };
            assert_eq!(format_bytes(bytes), expected);
        }
    }
}

#[test]
fn aggregate_prepare_keeps_detailed_layer_bars() {
    let digests = vec![
        "sha256:first".to_string(),
        "sha256:second".to_string(),
        "sha256:third".to_string(),
    ];
    let mut aggregate = AggregateProgress::new(Vec::new());

    aggregate.prepare(&digests);

    assert_eq!(aggregate_render(&aggregate).total_layers, 3);
    for digest in &digests {
        assert!(aggregate.layer(digest).is_some());
    }
}

#[test]
fn aggregate_render_includes_layer_counts() {
    let mut aggregate = AggregateProgress::new(vec![
        "sha256:first".to_string(),
        "sha256:second".to_string(),
        "sha256:third".to_string(),
    ]);
    aggregate.insert_layer(
        "sha256:first",
        AggregateLayer {
            total: 100,
            position: 100,
            state: AggregateLayerState::Complete,
            status: Some("Pull complete".to_string()),
        },
    );
    aggregate.insert_layer(
        "sha256:second",
        AggregateLayer {
            total: 100,
            position: 50,
            state: AggregateLayerState::Downloading,
            status: Some("Pulling".to_string()),
        },
    );
    aggregate.insert_layer("sha256:third", AggregateLayer::new());
    assert!(aggregate.can_count());

    let render = aggregate_render(&aggregate);

    assert_eq!(render.completed_layers, 1);
    assert_eq!(render.total_layers, 3);
    assert_eq!(render.status, "Pulling");
    assert_eq!((render.position, render.total_bytes), (150, 200));
}

#[test]
fn aggregate_render_uses_waiting_layer_status() {
    let mut aggregate = AggregateProgress::new(vec!["sha256:first".to_string()]);
    aggregate.insert_layer(
        "sha256:first",
        AggregateLayer {
            total: 0,
            position: 0,
            state: AggregateLayerState::Waiting,
            status: Some("Waiting for another pocker process".to_string()),
        },
    );

    let render = aggregate_render(&aggregate);

    assert_eq!(render.strip, " ");
    assert_eq!(render.strip_states, vec![AggregateLayerState::Waiting]);
    assert_eq!(render.status, "Waiting for another pocker process");
}

#[test]
fn aggregate_render_throttles_fast_updates() {
    let now = Delay::from_secs(10);
    let mut aggregate = AggregateProgress::new(Vec::new());
    aggregate.prepare(&vec!["sha256:first".to_string()]);
    aggregate.start_layer("sha256:first", 100, 0);
    assert!(aggregate.render(true, now).is_some());

    aggregate.advance_layer("sha256:first", 10);

    assert!(aggregate.render(false, Delay::from_millis(10_050)).is_none());
    assert!(aggregate.render(false, Delay::from_millis(10_200)).is_some());
}

#[test]
fn aggregate_render_skips_forced_unchanged_summary() {
    let now = Delay::from_secs(10);
    let mut aggregate = AggregateProgress::new(Vec::new());
    aggregate.prepare(&vec!["sha256:first".to_string()]);
    assert!(aggregate.render(true, now).is_some());

    assert!(aggregate.render(true, Delay::from_secs(20)).is_none());
}

#[test]
fn detailed_layer_render_throttles_fast_updates() {
    let now = Delay::from_secs(10);
    let mut renders = LayerRenders::new();
    renders.start("sha256:first", 100, 0, now);

    assert_eq!(
        renders.advance("sha256:first", 10, Delay::from_millis(10_001)),
        LayerRenderAdvance::Throttled
    );
    assert_eq!(
        renders.flush("sha256:first", Delay::from_millis(10_002)),
        Some(10)
    );
    assert_eq!(renders.finish("sha256:first"), Some(100));
    assert_eq!(
        renders.advance("sha256:other", 1, now),
        LayerRenderAdvance::Missing
    );
}

#[test]
fn layers_move_from_waiting_to_complete() {
    let mut aggregate = AggregateProgress::new(Vec::new());
    aggregate.prepare(&vec!["sha256:a".to_string()]);
    aggregate.start_layer("sha256:a", 100, 20);
    aggregate.advance_layer("sha256:a", 30);
    let layer = aggregate.layer("sha256:a").expect("a layer");
    assert_eq!((layer.position, layer.total), (50, 100));
    assert_eq!(layer.state, AggregateLayerState::Downloading);
    aggregate.set_layer_status("sha256:a", "Verifying");
    aggregate.finish_layer("sha256:a", "Pull complete");
    let layer = aggregate.layer("sha256:a").expect("a layer");
    assert_eq!(layer.state, AggregateLayerState::Complete);
    assert_eq!(layer.position, layer.total);
    let render = aggregate_render(&aggregate);
    assert_eq!(render.completed_layers, 1);
    let message = aggregate_message("alpine", &render, false);
    assert!(message.contains("alpine"));
    assert_ne!(
        layer_progress_char(&layer),
        layer_progress_char(&AggregateLayer::new())
    );
    assert_ne!(
        aggregate_layer_state_for_status("Waiting"),
        AggregateLayerState::Complete
    );
}

#[test]
fn images_are_listed_by_name_and_age() {
    assert_eq!(split_repo_tag("localhost:5000/app:1.0"), ("localhost:5000/app", "1.0"));
    assert_eq!(split_repo_tag("app"), ("app", "<none>"));
    assert_eq!(short_image_id("sha256:abcdef0123456789"), "abcdef012345");
    assert_eq!(format_created(None, Some(10)), "<unknown>");
    assert_eq!(format_created(Some(20), Some(10)), "just now");
    assert!(format_created(Some(0), Some(7_200)).contains("2 hours"));

    let image = ImageSummary {
        created: Some(0),
        id: "sha256:abcdef0123456789".into(),
        repo_tags: vec!["app:1".into(), "app:2".into()],
        size: Some(5),
    };
    let rows = image_rows(&image, Some(60), "5B");
    assert_eq!(rows.len(), 2);
    assert_eq!(rows[1].tag, "2");
    let table = image_table(&rows);
    assert_eq!(table.len(), 3);
    assert!(table[0].starts_with("REPOSITORY"));
    assert!(table[1].contains("abcdef012345"));
    assert!(missing_image_error("app:3").message().contains("app:3"));
}
