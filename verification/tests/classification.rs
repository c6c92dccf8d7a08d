use vidiup::{latency_millis, Health, PolledSingleRecord, PollingFeaturesConfig, ProbeKind};

fn features(video: bool, playlist: bool, channel: bool, search: bool) -> PollingFeaturesConfig {
    PollingFeaturesConfig { video, playlist, search, channel }
}

fn outcome(video: Option<u32>, playlist: Option<u32>, channel: Option<u32>, search: Option<u32>) -> PolledSingleRecord {
    PolledSingleRecord { last_polled: 7, video, playlist, channel, search }
}

fn options() -> [Option<u32>; 2] {
    [None, Some(30)]
}

#[test]
fn all_probes_answered_is_well() {
    let record = outcome(Some(1), Some(2), Some(3), Some(4));
    let enabled = features(true, true, true, true);
    assert!(record.well(&enabled));
    assert!(!record.dead(&enabled));
    assert_eq!(record.classify(&enabled), Health::Well);
}

#[test]
fn no_probe_answered_is_dead() {
    let record = outcome(None, None, None, None);
    let enabled = features(true, true, true, true);
    assert!(!record.well(&enabled));
    assert!(record.dead(&enabled));
    assert_eq!(record.classify(&enabled), Health::Dead);
}

#[test]
fn some_probes_answered_is_partial() {
    let record = outcome(Some(1), None, Some(3), None);
    let enabled = features(true, true, true, true);
    assert!(!record.well(&enabled));
    assert!(!record.dead(&enabled));
    assert_eq!(record.classify(&enabled), Health::Partial);
}

#[test]
fn disabled_probes_do_not_count() {
    let enabled = features(true, false, false, true);
    assert_eq!(outcome(Some(1), None, None, Some(4)).classify(&enabled), Health::Well);
    assert_eq!(outcome(None, Some(2), Some(3), None).classify(&enabled), Health::Dead);
    assert!(outcome(None, Some(2), Some(3), None).dead(&enabled));
    assert_eq!(outcome(Some(1), Some(2), Some(3), None).classify(&enabled), Health::Partial);
    let one = features(false, false, true, false);
    assert_eq!(outcome(None, None, Some(3), None).classify(&one), Health::Well);
    assert_eq!(outcome(Some(1), Some(2), None, Some(4)).classify(&one), Health::Dead);
}

#[test]
fn no_enabled_probe_counts_as_well() {
    let enabled = features(false, false, false, false);
    for record in [outcome(None, None, None, None), outcome(Some(1), None, Some(3), None), outcome(Some(1), Some(2), Some(3), Some(4))] {
        assert!(record.well(&enabled));
        assert!(record.dead(&enabled));
        assert_eq!(record.classify(&enabled), Health::Well);
    }
}

#[test]
fn exactly_one_class_holds_unless_nothing_is_enabled() {
    let flags = [false, true];
    for v in flags {
        for p in flags {
            for c in flags {
                for s in flags {
                    let enabled = features(v, p, c, s);
                    let nothing = !v && !p && !c && !s;
                    for video in options() {
                        for playlist in options() {
                            for channel in options() {
                                for search in options() {
                                    let record = outcome(video, playlist, channel, search);
                                    let well = record.well(&enabled);
                                    let dead = record.dead(&enabled);
                                    let partial = !well && !dead;
                                    let holding = [well, dead, partial].iter().filter(|b| **b).count();
                                    if nothing {
                                        assert!(well && dead);
                                    } else {
                                        assert_eq!(holding, 1);
                                    }
                                    let expected = if well {
                                        Health::Well
                                    } else if dead {
                                        Health::Dead
                                    } else {
                                        Health::Partial
                                    };
                                    assert_eq!(record.classify(&enabled), expected);
                                }
                            }
                        }
                    }
                }
            }
        }
    }
}

#[test]
fn score_adds_the_latencies() {
    assert_eq!(outcome(Some(10), Some(20), Some(30), Some(40)).score(), 100);
    assert_eq!(outcome(Some(10), None, None, Some(40)).score(), 50);
    assert_eq!(outcome(None, None, None, None).score(), 0);
    assert_eq!(outcome(Some(u32::MAX), None, None, None).score(), u32::MAX);
}

#[test]
fn default_record_was_never_polled() {
    let record = PolledSingleRecord::default();
    assert_eq!(record, PolledSingleRecord { last_polled: 0, video: None, playlist: None, channel: None, search: None });
}

#[test]
fn assemble_drops_what_is_not_enabled() {
    let enabled = features(true, false, true, false);
    let record = PolledSingleRecord::assemble_at(&enabled, Some(1), Some(2), None, Some(4), 1_700_000_000);
    assert_eq!(
        record,
        PolledSingleRecord { last_polled: 1_700_000_000, video: Some(1), playlist: None, channel: None, search: None }
    );
    let all = features(true, true, true, true);
    let record = PolledSingleRecord::assemble_at(&all, Some(1), Some(2), None, Some(4), 5);
    assert_eq!(record, PolledSingleRecord { last_polled: 5, video: Some(1), playlist: Some(2), channel: None, search: Some(4) });
}

#[test]
fn assemble_counts_a_time_before_the_epoch_as_the_epoch() {
    let all = features(true, true, true, true);
    assert_eq!(PolledSingleRecord::assemble_at(&all, None, None, None, None, -5).last_polled, 0);
    assert_eq!(PolledSingleRecord::assemble_at(&all, None, None, None, None, 0).last_polled, 0);
    assert_eq!(PolledSingleRecord::assemble_at(&all, None, None, None, None, i64::MAX).last_polled, i64::MAX as u64);
}

#[test]
fn kinds_lists_the_enabled_probes_in_order() {
    assert_eq!(
        features(true, true, true, true).kinds(),
        vec![ProbeKind::Video, ProbeKind::Playlist, ProbeKind::Channel, ProbeKind::Search]
    );
    assert_eq!(features(false, true, false, true).kinds(), vec![ProbeKind::Playlist, ProbeKind::Search]);
    assert_eq!(features(true, false, true, false).kinds(), vec![ProbeKind::Video, ProbeKind::Channel]);
    assert_eq!(features(false, false, true, false).kinds(), vec![ProbeKind::Channel]);
    assert!(features(false, false, false, false).kinds().is_empty());
}

#[test]
fn latency_by_kind() {
    let record = outcome(Some(1), None, Some(3), Some(4));
    assert_eq!(record.latency(ProbeKind::Video), Some(1));
    assert_eq!(record.latency(ProbeKind::Playlist), None);
    assert_eq!(record.latency(ProbeKind::Channel), Some(3));
    assert_eq!(record.latency(ProbeKind::Search), Some(4));
}

#[test]
fn well_means_every_enabled_kind_answered() {
    let flags = [false, true];
    for v in flags {
        for p in flags {
            for c in flags {
                for s in flags {
                    let enabled = features(v, p, c, s);
                    for video in options() {
                        for playlist in options() {
                            for channel in options() {
                                for search in options() {
                                    let record = outcome(video, playlist, channel, search);
                                    let kinds = enabled.kinds();
                                    assert_eq!(record.well(&enabled), kinds.iter().all(|k| record.latency(*k).is_some()));
                                    assert_eq!(record.dead(&enabled), kinds.iter().all(|k| record.latency(*k).is_none()));
                                }
                            }
                        }
                    }
                }
            }
        }
    }
}

#[test]
fn latency_in_milliseconds_stops_at_its_largest() {
    assert_eq!(latency_millis(0), 0);
    assert_eq!(latency_millis(1_234), 1_234);
    assert_eq!(latency_millis(u32::MAX as u128), u32::MAX);
    assert_eq!(latency_millis(u32::MAX as u128 + 1), u32::MAX);
    assert_eq!(latency_millis(u128::MAX), u32::MAX);
}

#[test]
fn try_score_refuses_a_sum_that_does_not_fit() {
    assert_eq!(outcome(Some(10), Some(20), Some(30), Some(40)).try_score(), Some(100));
    assert_eq!(outcome(None, None, None, None).try_score(), Some(0));
    assert_eq!(outcome(Some(u32::MAX), None, None, None).try_score(), Some(u32::MAX));
    assert_eq!(outcome(Some(u32::MAX), Some(1), None, None).try_score(), None);
    assert_eq!(outcome(Some(u32::MAX), Some(u32::MAX), Some(u32::MAX), Some(u32::MAX)).try_score(), None);
    assert_eq!(outcome(Some(u32::MAX - 3), Some(1), Some(1), Some(1)).try_score(), Some(u32::MAX));
}

#[test]
fn assemble_stamps_the_current_time() {
    let enabled = features(true, true, false, false);
    let before = chrono::Utc::now().timestamp() as u64;
    let record = PolledSingleRecord::assemble(&enabled, Some(5), None, Some(7), None);
    let after = chrono::Utc::now().timestamp() as u64;
    assert!(before <= record.last_polled && record.last_polled <= after);
    assert_eq!(record.video, Some(5));
    assert_eq!(record.playlist, None);
    assert_eq!(record.channel, None);
    assert_eq!(record.search, None);
}
