use rustft8::decode::{merge_message, Message};
use rustft8::waterfall::{Candidate, Waterfall};

#[test]
fn waterfall_new_has_expected_shape() {
    let wf = Waterfall::new(93, 960, 4, 2);
    assert_eq!(wf.block_stride, 4 * 2 * 960);
    assert_eq!(wf.mag.len(), 93 * 4 * 2 * 960);
    assert_eq!(wf.num_blocks, 0);
}

#[test]
fn get_index_matches_the_layout() {
    let wf = Waterfall::new(93, 960, 4, 2);
    let c = Candidate { score: 0, time_offset: 2, freq_offset: 100, time_sub: 1, freq_sub: 1 };
    let expected = ((2 * 4 + 1) * 2 + 1) * 960 + 100;
    assert_eq!(wf.get_index(&c), expected);
    let neg = Candidate { score: 0, time_offset: -1, freq_offset: 0, time_sub: 0, freq_sub: 0 };
    assert_eq!(wf.get_index(&neg), -(wf.block_stride as i32));
}

#[test]
fn sync_score_is_zero_on_a_flat_waterfall() {
    let mut wf = Waterfall::new(93, 64, 2, 2);
    wf.num_blocks = 93;
    for m in wf.mag.iter_mut() {
        *m = 100;
    }
    let c = Candidate { score: 0, time_offset: 0, freq_offset: 10, time_sub: 0, freq_sub: 0 };
    assert_eq!(wf.ft8_sync_score(&c), 0);
}

#[test]
fn find_sync_returns_sorted_candidates() {
    let mut wf = Waterfall::new(93, 64, 2, 2);
    wf.num_blocks = 93;
    // A bright stripe at bin 20 raises scores near it.
    let stride = wf.block_stride;
    for block in 0..93 {
        for ts in 0..2 {
            for fs in 0..2 {
                let base = block * stride + (ts * 2 + fs) * 64;
                wf.mag[base + 20] = 200;
            }
        }
    }
    let mut candidates = Vec::new();
    let n = wf.ft8_find_sync(0, 57, 1, &mut candidates);
    assert_eq!(n, candidates.len());
    for w in candidates.windows(2) {
        assert!(w[0].score >= w[1].score);
    }
    for c in &candidates {
        assert!(c.freq_offset < 57);
        assert!(c.time_offset >= -12 && c.time_offset < 24);
        assert!(c.score >= 1);
    }
}

#[test]
fn decode_frequencies_partitions_the_bins() {
    let wf = Waterfall::new(93, 960, 4, 2);
    let ranges = wf.decode_frequencies(8);
    assert_eq!(ranges.len(), 8);
    assert_eq!(ranges[0].0, 0);
    assert_eq!(ranges[7].1, 960 - 7);
    for i in 0..7 {
        assert_eq!(ranges[i].1, ranges[i + 1].0);
    }
}

#[test]
fn merge_message_deduplicates_by_hash() {
    let mut messages: Vec<Message> = Vec::new();
    let c1 = Candidate { score: 10, time_offset: 1, freq_offset: 5, time_sub: 0, freq_sub: 0 };
    let c2 = Candidate { score: 12, time_offset: 1, freq_offset: 6, time_sub: 1, freq_sub: 0 };

    let mut m1 = Message::new();
    m1.text = String::from("CQ AA1ABC FN42");
    m1.hash = 77;
    m1.df.push(c1);
    merge_message(&mut messages, m1);
    assert_eq!(messages.len(), 1);

    let mut m2 = Message::new();
    m2.text = String::from("CQ AA1ABC FN42");
    m2.hash = 77;
    m2.df.push(c2);
    merge_message(&mut messages, m2);
    assert_eq!(messages.len(), 1);
    assert_eq!(messages[0].df.len(), 2);
    assert_eq!(messages[0].df[1], c2);

    let mut m3 = Message::new();
    m3.text = String::from("W1AW K1ABC -05");
    m3.hash = 99;
    merge_message(&mut messages, m3);
    assert_eq!(messages.len(), 2);
    assert_eq!(messages[1].hash, 99);
}
