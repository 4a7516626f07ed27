use lycoric::render::{
    reduce, AnimationReasons, BatchPlan, ClockSample, DirtyFlags, FrameStatus, FrameTickChange,
    PlaybackState, RenderEvent, RenderState, SourceChanges, SourceIntents, Wakeup, WakeupChange,
};
use lycoric::time::LyricTime;

fn time(value_us: i64) -> LyricTime {
    LyricTime::from_micros(value_us)
}

/// What a playing anchor at rate 1 reads at a frame: media time advanced by the elapsed time.
fn playing_sample(media_us: i64, anchor_frame_us: i64, frame_time_us: i64) -> ClockSample {
    ClockSample { position: time(media_us + (frame_time_us - anchor_frame_us)), advancing: true }
}

fn paused_sample(media_us: i64) -> ClockSample {
    ClockSample { position: time(media_us), advancing: false }
}

#[test]
fn paused_playback_still_runs_short_ui_interactions() {
    let interaction = FrameStatus::new(
        LyricTime::zero(),
        None,
        AnimationReasons::interaction() | AnimationReasons::line_transition(),
    );
    assert!(matches!(
        interaction.render_state(PlaybackState::Paused),
        RenderState::Animating { .. }
    ));

    let word_only = FrameStatus::new(LyricTime::zero(), None, AnimationReasons::word_progress());
    assert!(matches!(
        word_only.render_state(PlaybackState::Paused),
        RenderState::Static { .. }
    ));
}

#[test]
fn animation_reasons_support_local_bit_operations() {
    let mut reasons = AnimationReasons::word_progress() | AnimationReasons::line_transition();
    reasons.insert(AnimationReasons::gap_pulse());
    assert!(reasons.contains(AnimationReasons::word_progress()));
    assert!(reasons.intersects(AnimationReasons::line_transition()));
    assert!(reasons.contains(AnimationReasons::gap_pulse()));

    reasons.remove(AnimationReasons::word_progress());
    reasons.insert(AnimationReasons::cover_crossfade());

    assert!(!reasons.contains(AnimationReasons::word_progress()));
    assert!(reasons.contains(AnimationReasons::cover_crossfade()));
    assert_eq!(
        AnimationReasons::from_bits_truncate(u8::MAX),
        AnimationReasons::all()
    );
}

#[test]
fn animating_and_advancing_manual_scroll_request_a_frame_tick() {
    let quiet_states = [
        RenderState::Detached,
        RenderState::Empty,
        RenderState::Preparing { generation: 1 },
        RenderState::Static { position: time(0) },
        RenderState::Waiting {
            next_event: time(10),
        },
        RenderState::Seeking {
            generation: 1,
            target: time(20),
        },
        RenderState::ManualScroll {
            return_deadline_us: 30,
            advancing: false,
            animating: false,
        },
    ];

    for state in quiet_states {
        assert!(!state.needs_frame_tick());
        assert!(!state.source_intents().frame_tick);
    }

    let animating = RenderState::Animating {
        reasons: AnimationReasons::word_progress(),
    };
    assert!(animating.needs_frame_tick());
    assert!(animating.source_intents().frame_tick);

    let manual = RenderState::ManualScroll {
        return_deadline_us: 30,
        advancing: true,
        animating: false,
    };
    assert!(manual.needs_frame_tick());
    assert!(manual.source_intents().frame_tick);
    assert_eq!(manual.source_intents().wakeup, Some(Wakeup::FrameTime(30)));
    let paused_manual_animation = RenderState::ManualScroll {
        return_deadline_us: 30,
        advancing: false,
        animating: true,
    };
    assert!(paused_manual_animation.needs_frame_tick());
    assert!(paused_manual_animation.source_intents().frame_tick);
}

#[test]
fn paused_manual_scroll_ticks_until_hover_animation_finishes() {
    let manual = RenderState::ManualScroll {
        return_deadline_us: 5_000_000,
        advancing: false,
        animating: false,
    };
    let started = reduce(
        manual,
        RenderEvent::AnimationsChanged {
            playback: PlaybackState::Paused,
            frame: FrameStatus::new(time(0), None, AnimationReasons::interaction()),
        },
    );
    assert_eq!(
        started.state,
        RenderState::ManualScroll {
            return_deadline_us: 5_000_000,
            advancing: false,
            animating: true,
        }
    );
    assert!(started.effects.sources.frame_tick);

    let finished = reduce(
        started.state,
        RenderEvent::Tick {
            sample: paused_sample(0),
            next_event: None,
            animations: AnimationReasons::none(),
        },
    );
    assert_eq!(
        finished.state,
        RenderState::ManualScroll {
            return_deadline_us: 5_000_000,
            advancing: false,
            animating: false,
        }
    );
    assert!(!finished.effects.sources.frame_tick);
    assert_eq!(
        finished.effects.sources.wakeup,
        Some(Wakeup::FrameTime(5_000_000))
    );
}

#[test]
fn source_reconciliation_is_idempotent() {
    let desired = RenderState::Animating {
        reasons: AnimationReasons::word_progress(),
    }
    .source_intents();

    assert_eq!(
        desired.changes_from(SourceIntents::none()).frame_tick,
        FrameTickChange::Start
    );
    assert_eq!(
        desired.changes_from(desired),
        SourceChanges::default(),
        "an already active source must not be started again"
    );

    let stopped = SourceIntents::none();
    assert_eq!(
        stopped.changes_from(desired).frame_tick,
        FrameTickChange::Stop
    );
    assert_eq!(stopped.changes_from(stopped), SourceChanges::default());
}

#[test]
fn gap_pulse_requests_ticks_only_while_playing() {
    let frame = FrameStatus::new(
        time(1_000_000),
        Some(time(2_000_000)),
        AnimationReasons::gap_pulse(),
    );
    let playing = frame.render_state(PlaybackState::Playing);
    assert_eq!(
        playing,
        RenderState::Animating {
            reasons: AnimationReasons::gap_pulse()
        }
    );
    assert!(playing.source_intents().frame_tick);

    let paused = frame.render_state(PlaybackState::Paused);
    assert_eq!(
        paused,
        RenderState::Static {
            position: time(1_000_000)
        }
    );
    assert_eq!(paused.source_intents(), SourceIntents::none());
}

#[test]
fn reducer_waits_animates_then_becomes_static_without_ticks() {
    let mapped = reduce(
        RenderState::Detached,
        RenderEvent::Mapped {
            document_generation: Some(4),
        },
    );
    assert_eq!(mapped.state, RenderState::Preparing { generation: 4 });
    assert_eq!(mapped.effects.batch, BatchPlan::Prepare { generation: 4 });
    assert!(!mapped.effects.sources.frame_tick);

    let prepared = reduce(
        mapped.state,
        RenderEvent::Prepared {
            generation: 4,
            playback: PlaybackState::Playing,
            frame: FrameStatus::new(time(10), Some(time(20)), AnimationReasons::none()),
        },
    );
    assert_eq!(
        prepared.state,
        RenderState::Waiting {
            next_event: time(20)
        }
    );
    assert_eq!(
        prepared.effects.sources.wakeup,
        Some(Wakeup::MediaTime(time(20)))
    );
    assert!(!prepared.effects.sources.frame_tick);

    let awake = reduce(
        prepared.state,
        RenderEvent::Wakeup {
            sample: playing_sample(20, 100, 100),
            next_event: Some(time(30)),
            animations: AnimationReasons::word_progress(),
        },
    );
    assert_eq!(
        awake.state,
        RenderState::Animating {
            reasons: AnimationReasons::word_progress()
        }
    );
    assert!(awake.effects.sources.frame_tick);
    assert_eq!(awake.effects.sources.wakeup, None);

    let settled = reduce(
        awake.state,
        RenderEvent::Tick {
            sample: playing_sample(20, 100, 110),
            next_event: None,
            animations: AnimationReasons::none(),
        },
    );
    assert_eq!(settled.state, RenderState::Static { position: time(30) });
    assert_eq!(settled.effects.sources, SourceIntents::none());
}

#[test]
fn pause_and_unmap_stop_all_sources() {
    let animating = RenderState::Animating {
        reasons: AnimationReasons::background_motion(),
    };
    let paused = reduce(animating, RenderEvent::Pause { position: time(42) });

    assert_eq!(paused.state, RenderState::Static { position: time(42) });
    assert_eq!(paused.effects.sources, SourceIntents::none());
    assert_eq!(
        paused
            .effects
            .sources
            .changes_from(animating.source_intents())
            .frame_tick,
        FrameTickChange::Stop
    );

    let waiting = RenderState::Waiting {
        next_event: time(100),
    };
    let detached = reduce(waiting, RenderEvent::Unmapped);
    assert_eq!(detached.state, RenderState::Detached);
    assert_eq!(detached.effects.sources, SourceIntents::none());
    assert_eq!(detached.effects.batch, BatchPlan::Cancel);
}

#[test]
fn stale_generation_results_are_ignored() {
    let state = RenderState::Preparing { generation: 9 };
    let reduction = reduce(
        state,
        RenderEvent::Prepared {
            generation: 8,
            playback: PlaybackState::Paused,
            frame: FrameStatus::new(time(5), None, AnimationReasons::none()),
        },
    );

    assert_eq!(reduction.state, state);
    assert!(reduction.effects.dirty.is_empty());
    assert!(!reduction.effects.queue_draw);
}

#[test]
fn manual_scroll_uses_one_wakeup_and_ignores_early_timeout() {
    let scrolling = reduce(
        RenderState::Static { position: time(0) },
        RenderEvent::UserScroll {
            return_deadline_us: 500,
            advancing: true,
        },
    );
    assert_eq!(
        scrolling.effects.sources.wakeup,
        Some(Wakeup::FrameTime(500))
    );
    assert!(scrolling.effects.sources.frame_tick);

    let sampled = reduce(
        scrolling.state,
        RenderEvent::Tick {
            sample: playing_sample(5, 100, 105),
            next_event: Some(time(10)),
            animations: AnimationReasons::word_progress(),
        },
    );
    assert_eq!(sampled.state, scrolling.state);
    assert!(sampled.effects.dirty.contains(DirtyFlags::position()));
    assert!(sampled.effects.queue_draw);
    assert!(sampled.effects.sources.frame_tick);
    assert_eq!(sampled.effects.sources.wakeup, Some(Wakeup::FrameTime(500)));

    let paused = reduce(
        sampled.state,
        RenderEvent::AnchorChanged {
            sample: paused_sample(10),
            next_event: Some(time(10)),
            animations: AnimationReasons::none(),
        },
    );
    assert_eq!(
        paused.state,
        RenderState::ManualScroll {
            return_deadline_us: 500,
            advancing: false,
            animating: false,
        }
    );
    assert!(!paused.effects.sources.frame_tick);
    assert_eq!(paused.effects.sources.wakeup, Some(Wakeup::FrameTime(500)));

    let frame = FrameStatus::new(time(5), Some(time(10)), AnimationReasons::none());
    let early = reduce(
        scrolling.state,
        RenderEvent::ManualScrollTimeout {
            frame_time_us: 499,
            playback: PlaybackState::Playing,
            frame,
        },
    );
    assert_eq!(early.state, scrolling.state);
    assert_eq!(early.effects.sources.wakeup, Some(Wakeup::FrameTime(500)));

    let expired = reduce(
        early.state,
        RenderEvent::ManualScrollTimeout {
            frame_time_us: 500,
            playback: PlaybackState::Playing,
            frame,
        },
    );
    assert_eq!(
        expired.state,
        RenderState::Waiting {
            next_event: time(10)
        }
    );
}

#[test]
fn invalid_allocation_defers_batch_work() {
    let reduction = reduce(
        RenderState::Static { position: time(0) },
        RenderEvent::AllocationChanged {
            generation: 12,
            valid: false,
            relayout: true,
        },
    );

    assert_eq!(
        reduction.effects.batch,
        BatchPlan::DeferRebuild { generation: 12 }
    );
    assert!(reduction.effects.dirty.contains(DirtyFlags::layout()));
    assert!(!reduction.effects.queue_draw);
    assert_eq!(reduction.effects.sources, SourceIntents::none());
}

#[test]
fn height_only_allocation_updates_only_the_viewport() {
    let state = RenderState::Static { position: time(0) };
    let reduction = reduce(
        state,
        RenderEvent::AllocationChanged {
            generation: 12,
            valid: true,
            relayout: false,
        },
    );

    assert_eq!(reduction.state, state);
    assert_eq!(reduction.effects.batch, BatchPlan::Idle);
    assert_eq!(reduction.effects.dirty, DirtyFlags::viewport());
    assert!(!reduction.effects.dirty.contains(DirtyFlags::layout()));
    assert!(reduction.effects.queue_draw);
}

#[test]
fn invalid_to_valid_allocation_rebuilds_deferred_layout() {
    let state = RenderState::Preparing { generation: 12 };
    let reduction = reduce(
        state,
        RenderEvent::AllocationChanged {
            generation: 13,
            valid: true,
            relayout: true,
        },
    );

    assert_eq!(
        reduction.effects.batch,
        BatchPlan::Rebuild { generation: 13 }
    );
    assert!(reduction.effects.dirty.contains(DirtyFlags::layout()));
    assert!(reduction.effects.queue_draw);
}

#[test]
fn a_wakeup_schedule_is_reconciled_against_the_current_one() {
    let waiting = RenderState::Waiting { next_event: time(20) }.source_intents();
    let later = RenderState::Waiting { next_event: time(30) }.source_intents();
    assert_eq!(
        later.changes_from(waiting).wakeup,
        WakeupChange::Schedule(Wakeup::MediaTime(time(30)))
    );
    assert_eq!(SourceIntents::none().changes_from(waiting).wakeup, WakeupChange::Cancel);
    assert_eq!(waiting.changes_from(waiting).wakeup, WakeupChange::Keep);
}

#[test]
fn disposing_cancels_batch_work_and_detaches() {
    let reduction = reduce(
        RenderState::Animating { reasons: AnimationReasons::word_progress() },
        RenderEvent::Disposed,
    );
    assert_eq!(reduction.state, RenderState::Detached);
    assert_eq!(reduction.effects.batch, BatchPlan::Cancel);
    assert_eq!(reduction.effects.sources, SourceIntents::none());
}
