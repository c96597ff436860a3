use realfft::RealFftPlanner;
use rustft8::decode::{merge_message, Message};
use rustft8::encode::ft8_encode;
use rustft8::pack::pack77;
use rustft8::waterfall::{Candidate, Waterfall};

const SAMPLE_RATE: usize = 12000;
const SYMBOL_PERIOD: f32 = 0.16;
const SLOT_TIME: f32 = 15.0;
const GFSK_K: f32 = 5.336446;
const SYMBOL_BT: f32 = 2.0;

fn synth_gfsk(symbols: &[usize; 79], f0: f32, signal: &mut [f32]) {
    let n_spsym = (0.5 + SAMPLE_RATE as f32 * SYMBOL_PERIOD) as usize;
    let n_sym = 79;
    let n_wave = n_sym * n_spsym;
    let dphi_peak = 2.0 * std::f32::consts::PI / n_spsym as f32;

    let mut pulse = vec![0.0f32; 3 * n_spsym];
    for i in 0..3 * n_spsym {
        let t = i as f32 / n_spsym as f32 - 1.5;
        let arg1 = GFSK_K * SYMBOL_BT * (t + 0.5);
        let arg2 = GFSK_K * SYMBOL_BT * (t - 0.5);
        pulse[i] = (libm::erff(arg1) - libm::erff(arg2)) / 2.0;
    }

    let mut dphi = vec![2.0 * std::f32::consts::PI * f0 / SAMPLE_RATE as f32; n_wave + 2 * n_spsym];
    for i in 0..n_sym {
        let ib = i * n_spsym;
        for j in 0..3 * n_spsym {
            dphi[j + ib] += dphi_peak * symbols[i] as f32 * pulse[j];
        }
    }
    for j in 0..2 * n_spsym {
        dphi[j] += dphi_peak * pulse[j + n_spsym] * symbols[0] as f32;
        dphi[j + n_sym * n_spsym] += dphi_peak * pulse[j] * symbols[n_sym - 1] as f32;
    }

    let mut phi = 0.0f32;
    for k in 0..n_wave {
        signal[k] = phi.sin();
        phi = libm::fmodf(phi + dphi[k + n_spsym], 2.0 * std::f32::consts::PI);
    }

    let n_ramp = n_spsym / 8;
    for i in 0..n_ramp {
        let env = (1.0 - (2.0 * std::f32::consts::PI * i as f32 / (2.0 * n_ramp as f32)).cos())
            / 2.0;
        signal[i] *= env;
        signal[n_wave - 1 - i] *= env;
    }
}

fn encode_to_samples(message: &str, f0: f32) -> Vec<f32> {
    let mut payload = [0u8; 12];
    assert_eq!(pack77(&String::from(message), &mut payload), 0);
    let mut tones = [0usize; 79];
    ft8_encode(&payload, &mut tones);

    let n_spsym = (0.5 + SAMPLE_RATE as f32 * SYMBOL_PERIOD) as usize;
    let num_samples = 79 * n_spsym;
    let total = (SLOT_TIME * SAMPLE_RATE as f32) as usize;
    let num_silence = (total - num_samples) / 2;

    let mut wave = vec![0.0f32; num_samples];
    synth_gfsk(&tones, f0, &mut wave);

    let mut samples = vec![0.0f32; total];
    samples[num_silence..num_silence + num_samples].copy_from_slice(&wave);
    samples
}

fn build_waterfall(samples: &[f32]) -> Waterfall {
    let time_osr = 4usize;
    let freq_osr = 2usize;
    let block_size = (SAMPLE_RATE as f32 * SYMBOL_PERIOD) as usize;
    let subblock_size = block_size / time_osr;
    let nfft = block_size * freq_osr;
    let fft_norm = 2.0f32 / nfft as f32;
    let max_blocks = (SLOT_TIME / SYMBOL_PERIOD) as usize;
    let num_bins = block_size / 2;

    let mut wf = Waterfall::new(max_blocks, num_bins, time_osr, freq_osr);

    let mut planner = RealFftPlanner::<f32>::new();
    let fft = planner.plan_fft_forward(nfft);

    let mut window = vec![0.0f32; nfft];
    for i in 0..nfft {
        let s = (std::f32::consts::PI * i as f32 / nfft as f32).sin();
        window[i] = fft_norm * s * s;
    }

    let mut spectrum = fft.make_output_vec();
    let mut frame = 0usize;
    let mut offset = 0usize;
    while frame + block_size <= samples.len() && wf.num_blocks < wf.max_blocks {
        let mut done = false;
        for time_sub in 0..time_osr {
            let from = frame + time_sub * subblock_size;
            let to = from + nfft;
            if to > samples.len() {
                done = true;
                break;
            }
            let mut indata: Vec<f32> = samples[from..to].to_vec();
            for (i, v) in indata.iter_mut().enumerate() {
                *v *= window[i];
            }
            fft.process(&mut indata, &mut spectrum).unwrap();
            for freq_sub in 0..freq_osr {
                for bin in 0..num_bins {
                    let src = bin * freq_osr + freq_sub;
                    let mag2 = spectrum[src].re * spectrum[src].re
                        + spectrum[src].im * spectrum[src].im;
                    let db = 10.0 * (1e-12 + mag2).log10();
                    let scaled = (2.0 * db + 240.0) as i32;
                    wf.mag[offset] = scaled.clamp(0, 255) as u8;
                    offset += 1;
                }
            }
        }
        if done {
            break;
        }
        wf.num_blocks += 1;
        frame += block_size;
    }
    wf
}

fn decode_range(wf: &Waterfall, freq_from: usize, freq_to: usize) -> Vec<Message> {
    let mut candidates: Vec<Candidate> = Vec::new();
    wf.ft8_find_sync(freq_from, freq_to, 10, &mut candidates);
    let mut messages: Vec<Message> = Vec::new();
    for c in candidates.iter() {
        let mut message = Message::new();
        if wf.ft8_decode(c, 20, &mut message) {
            merge_message(&mut messages, message);
        }
    }
    messages
}

fn candidate_freq_hz(wf: &Waterfall, c: &Candidate) -> f32 {
    (c.freq_offset as f32 + c.freq_sub as f32 / wf.freq_osr as f32) / SYMBOL_PERIOD
}

fn candidate_time_sec(wf: &Waterfall, c: &Candidate) -> f32 {
    (c.time_offset as f32 + c.time_sub as f32 / wf.time_osr as f32) * SYMBOL_PERIOD
}

#[test]
fn encode_and_decode_single_message() {
    let samples = encode_to_samples("CQ AA1ABC FN42", 1000.0);
    let wf = build_waterfall(&samples);
    // 1000 Hz sits at bin 160; scan a window around it.
    let messages = decode_range(&wf, 120, 200);
    assert_eq!(messages.len(), 1);
    assert_eq!(messages[0].text, "CQ AA1ABC FN42");

    let c = &messages[0].df[0];
    let df = candidate_freq_hz(&wf, c);
    assert!((df - 1000.0).abs() <= 3.0, "df = {df}");

    let n_spsym = 1920.0f32;
    let silence = ((SLOT_TIME * SAMPLE_RATE as f32) - 79.0 * n_spsym) / 2.0
        / SAMPLE_RATE as f32;
    let dt = candidate_time_sec(&wf, c);
    assert!((dt - silence).abs() <= 0.1, "dt = {dt}, expected near {silence}");
}

#[test]
fn two_overlapping_messages_both_decode() {
    let s1 = encode_to_samples("N0CALL 73", 800.0);
    let s2 = encode_to_samples("KA1XYZ RRR", 1200.0);
    let mixed: Vec<f32> = s1.iter().zip(s2.iter()).map(|(a, b)| a + b).collect();
    let wf = build_waterfall(&mixed);
    // 800 Hz is bin 128, 1200 Hz is bin 192.
    let messages = decode_range(&wf, 100, 220);
    let texts: Vec<&str> = messages.iter().map(|m| m.text.as_str()).collect();
    assert!(texts.contains(&"N0CALL 73"), "decoded: {texts:?}");
    assert!(texts.contains(&"KA1XYZ RRR"), "decoded: {texts:?}");
}
