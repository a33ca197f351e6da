use tarjama::translate::{
    check_meta, decode_target, decoder_max_len, encode_source, find_name, mt_threads,
    pair_kv_cache, source_from_encoding, source_ids, target_from_decoding, target_ids,
    try_decode_target, try_encode_source, NameRule, MAX_ENC_TOKENS, encoding_is_fixed, source_text,
};
use tokenizers::models::bpe::BPE;
use tokenizers::decoders::bpe::BPEDecoder;
use tokenizers::decoders::fuse::Fuse;
use tokenizers::decoders::sequence::Sequence;
use tokenizers::decoders::strip::Strip;
use tokenizers::decoders::DecoderWrapper;
use tokenizers::utils::truncation::TruncationParams;
use tokenizers::Tokenizer;

fn strings(v: &[&str]) -> Vec<String> {
    v.iter().map(|s| s.to_string()).collect()
}

fn pairs(v: &[(&str, &str)]) -> Vec<(String, String)> {
    v.iter().map(|(a, b)| (a.to_string(), b.to_string())).collect()
}

const TOKENIZER_JSON: &str = r#"{
  "version": "1.0",
  "truncation": null,
  "padding": null,
  "added_tokens": [
    {"id": 0, "content": "[UNK]", "single_word": false, "lstrip": false, "rstrip": false, "normalized": false, "special": true}
  ],
  "normalizer": null,
  "pre_tokenizer": {"type": "Whitespace"},
  "post_processor": null,
  "decoder": null,
  "model": {"type": "WordLevel", "vocab": {"[UNK]": 0, "merhaba": 1, "dunya": 2, "selam": 3, "aa": 4}, "unk_token": "[UNK]"}
}"#;

fn tokenizer() -> Tokenizer {
    Tokenizer::from_bytes(TOKENIZER_JSON.as_bytes()).expect("tokenizer json")
}

#[test]
fn model_io_names() {
    let d0_in = strings(&["encoder_attention_mask", "input_ids", "encoder_hidden_states"]);
    assert_eq!(find_name(&d0_in, NameRule::TokenInput, "tok"), Ok("input_ids".to_string()));
    assert_eq!(find_name(&d0_in, NameRule::Mask, "mask"), Ok("encoder_attention_mask".to_string()));
    assert_eq!(
        find_name(&d0_in, NameRule::Hidden, "hidden"),
        Ok("encoder_hidden_states".to_string())
    );
    let alt = strings(&["decoder_input_tokens", "x"]);
    assert_eq!(find_name(&alt, NameRule::TokenInput, "tok"), Ok("decoder_input_tokens".to_string()));
    let outs = strings(&["logits_old", "logits", "present.0.decoder.key"]);
    assert_eq!(find_name(&outs, NameRule::Logits, "logits"), Ok("logits".to_string()));
    assert_eq!(
        find_name(&strings(&["a", "b"]), NameRule::Logits, "logits (cached)"),
        Err("logits (cached) not found in model I/O".to_string())
    );
}

#[test]
fn cache_pairing() {
    let d1_in = strings(&[
        "input_ids",
        "encoder_attention_mask",
        "past_key_values.0.decoder.key",
        "past_key_values.0.decoder.value",
        "past_key_values.0.encoder.key",
        "past_key_values.0.encoder.value",
        "past_key_values.0.other",
    ]);
    let d0_out = strings(&[
        "logits",
        "present.0.decoder.key",
        "present.0.decoder.value",
        "present.0.encoder.key",
        "present.0.encoder.value",
        "present.0.other",
    ]);
    let (sc, cc) = pair_kv_cache(&d1_in, &d0_out).expect("complete");
    assert_eq!(
        sc,
        pairs(&[
            ("past_key_values.0.decoder.key", "present.0.decoder.key"),
            ("past_key_values.0.decoder.value", "present.0.decoder.value"),
        ])
    );
    assert_eq!(
        cc,
        pairs(&[
            ("past_key_values.0.encoder.key", "present.0.encoder.key"),
            ("past_key_values.0.encoder.value", "present.0.encoder.value"),
        ])
    );
}

#[test]
fn cache_pairing_errors() {
    let d1_in = strings(&["past_key_values.0.decoder.key", "past_key_values.0.encoder.key"]);
    let missing = strings(&["present.0.decoder.key"]);
    assert_eq!(
        pair_kv_cache(&d1_in, &missing),
        Err("step-1 model lacks present.0.encoder.key (needed for past past_key_values.0.encoder.key)"
            .to_string())
    );
    let self_only = strings(&["past_key_values.0.decoder.key"]);
    assert_eq!(
        pair_kv_cache(&self_only, &strings(&["present.0.decoder.key"])),
        Err("KV cache pairing incomplete (self=1 cross=0)".to_string())
    );
    assert_eq!(
        pair_kv_cache(&strings(&["past_key_values"]), &strings(&["present."])),
        Err("KV cache pairing incomplete (self=0 cross=0)".to_string())
    );
}

#[test]
fn decoding_limits() {
    assert_eq!(decoder_max_len(0), 256);
    assert_eq!(decoder_max_len(100), 100);
    assert_eq!(decoder_max_len(512), 256);
    assert_eq!(check_meta(8, 64), Ok(()));
    assert_eq!(check_meta(0, 64), Err("meta.json missing num_decoder_heads/head_dim".to_string()));
    assert_eq!(check_meta(8, 0), Err("meta.json missing num_decoder_heads/head_dim".to_string()));
    assert_eq!(mt_threads(None), 2);
    assert_eq!(mt_threads(Some(0)), 1);
    assert_eq!(mt_threads(Some(6)), 6);
    assert_eq!(mt_threads(Some(64)), 8);
}

#[test]
fn source_ids_are_cut_to_the_encoder_limit() {
    let ids: Vec<u32> = (0..500).collect();
    let s = source_ids(&ids);
    assert_eq!(s.len(), MAX_ENC_TOKENS);
    assert_eq!(s[447], 447i64);
    assert_eq!(source_ids(&vec![5, u32::MAX]), vec![5i64, 4294967295i64]);
}

#[test]
fn encoding_results() {
    assert_eq!(source_from_encoding(Ok(vec![])), Ok(None));
    assert_eq!(source_from_encoding(Ok(vec![7, 8])), Ok(Some(vec![7i64, 8])));
    assert_eq!(
        source_from_encoding(Err("bad input".to_string())),
        Err("encode(tr): bad input".to_string())
    );
}

#[test]
fn decoding_results() {
    assert_eq!(target_ids(&vec![1i64, 2, -1]), vec![1u32, 2, u32::MAX]);
    assert_eq!(target_from_decoding(Ok("  سلام \n".to_string())), Ok("سلام".to_string()));
    assert_eq!(
        target_from_decoding(Err("unknown id".to_string())),
        Err("decode(ar): unknown id".to_string())
    );
}

#[test]
fn tokenizer_round_trip() {
    let tok = tokenizer();
    assert_eq!(encode_source(&tok, "  merhaba dunya \n"), Ok(Some(vec![1i64, 2])));
    assert_eq!(encode_source(&tok, "selam yabanci"), Ok(Some(vec![3i64, 0])));
    assert_eq!(encode_source(&tok, " \t "), Ok(None));
    assert_eq!(decode_target(&tok, &vec![2i64, 1]), Ok("dunya merhaba".to_string()));
    assert_eq!(decode_target(&tok, &vec![0i64, 3]), Ok("selam".to_string()));
    assert_eq!(
        decode_target(&tok, &Vec::new()),
        Err("translation produced no tokens".to_string())
    );
}

#[test]
fn checked_round_trip_on_a_plain_tokenizer() {
    let tok = tokenizer();
    assert_eq!(try_encode_source(&tok, " merhaba dunya "), Some(Ok(Some(vec![1i64, 2]))));
    assert_eq!(try_encode_source(&tok, "   "), Some(Ok(None)));
    assert_eq!(try_decode_target(&tok, &vec![3i64, 2]), Some(Ok("selam dunya".to_string())));
}

#[test]
fn truncation_without_room_is_refused() {
    let mut tok = tokenizer();
    let params = TruncationParams { max_length: 1, stride: 1, ..Default::default() };
    tok.with_truncation(Some(params)).expect("accepted by the tokenizer");
    assert_eq!(try_encode_source(&tok, "merhaba dunya"), None);
    let mut ok = tokenizer();
    let params = TruncationParams { max_length: 1, stride: 0, ..Default::default() };
    ok.with_truncation(Some(params)).expect("accepted by the tokenizer");
    assert_eq!(try_encode_source(&ok, "merhaba dunya"), Some(Ok(Some(vec![1i64]))));
}

#[test]
fn decoders_run_where_they_do_not_panic() {
    let mut tok = tokenizer();
    tok.with_decoder(Some(BPEDecoder::default()));
    assert_eq!(try_decode_target(&tok, &vec![1i64]), Some(Ok("merhaba".to_string())));
    // only a special token: the BPE step gets no token at all
    assert_eq!(try_decode_target(&tok, &vec![0i64]), None);
    tok.with_decoder(Some(Strip::new('x', 0, 1)));
    assert_eq!(try_decode_target(&tok, &vec![1i64]), Some(Ok("merhaba".to_string())));
    tok.with_decoder(Some(Strip::new('a', 1, 1)));
    assert_eq!(try_decode_target(&tok, &vec![4i64, 1]), Some(Ok("merhab".to_string())));
    // a token of `content` only, shorter than the cut at its end
    tok.with_decoder(Some(Strip::new('a', 0, 3)));
    assert_eq!(try_decode_target(&tok, &vec![4i64]), None);
    // the two cuts cross
    tok.with_decoder(Some(Strip::new('a', 2, 1)));
    assert_eq!(try_decode_target(&tok, &vec![4i64]), None);
    assert_eq!(try_decode_target(&tok, &vec![1i64]), Some(Ok("merhab".to_string())));
}

#[test]
fn sequence_steps_are_checked_on_what_the_steps_before_give() {
    let mut tok = tokenizer();
    let fused = Sequence::new(vec![DecoderWrapper::Fuse(Fuse::new()), DecoderWrapper::Strip(Strip::new('x', 0, 2))]);
    tok.with_decoder(Some(fused));
    assert_eq!(try_decode_target(&tok, &vec![1i64, 2]), Some(Ok("merhabadunya".to_string())));
    let crossing = Sequence::new(vec![DecoderWrapper::Fuse(Fuse::new()), DecoderWrapper::Strip(Strip::new('a', 2, 1))]);
    tok.with_decoder(Some(crossing));
    assert_eq!(try_decode_target(&tok, &vec![4i64]), None);
    assert_eq!(try_decode_target(&tok, &vec![4i64, 4]), Some(Ok("a".to_string())));
    let fine = Sequence::new(vec![DecoderWrapper::Strip(Strip::new('m', 1, 0)), DecoderWrapper::Fuse(Fuse::new())]);
    tok.with_decoder(Some(fine));
    assert_eq!(try_decode_target(&tok, &vec![1i64, 2]), Some(Ok("erhabadunya".to_string())));
    assert_eq!(try_decode_target(&tok, &Vec::new()), Some(Err("translation produced no tokens".to_string())));
}

fn io() -> tarjama::translate::ModelIo {
    tarjama::translate::ModelIo {
        enc_in: strings(&["input_ids", "attention_mask"]),
        enc_out: strings(&["last_hidden_state"]),
        d0_in: strings(&["encoder_attention_mask", "input_ids", "encoder_hidden_states"]),
        d0_out: strings(&[
            "logits",
            "present.0.decoder.key",
            "present.0.decoder.value",
            "present.0.encoder.key",
            "present.0.encoder.value",
        ]),
        d1_in: strings(&[
            "encoder_attention_mask",
            "input_ids",
            "past_key_values.0.decoder.key",
            "past_key_values.0.decoder.value",
            "past_key_values.0.encoder.key",
            "past_key_values.0.encoder.value",
        ]),
        d1_out: strings(&["logits", "present.0.decoder.key", "present.0.decoder.value"]),
    }
}

#[test]
fn model_names_resolve() {
    let n = tarjama::translate::resolve_model_names(&io(), 8, 64, 512)
        .expect("no panic")
        .expect("resolved");
    assert_eq!(n.enc_in, ("input_ids".to_string(), "attention_mask".to_string()));
    assert_eq!(n.enc_out, "last_hidden_state");
    assert_eq!(n.d0_tok, "input_ids");
    assert_eq!(n.d0_hidden, "encoder_hidden_states");
    assert_eq!(n.d0_mask, "encoder_attention_mask");
    assert_eq!(n.d1_tok, "input_ids");
    assert_eq!(n.d1_mask, "encoder_attention_mask");
    assert_eq!(n.logits0, "logits");
    assert_eq!(n.logits1, "logits");
    assert_eq!(n.self_cache.len(), 2);
    assert_eq!(n.cross_cache.len(), 2);
    assert_eq!(n.max_len, 256);
}

fn resolve_err(io: &tarjama::translate::ModelIo, heads: usize) -> String {
    match tarjama::translate::resolve_model_names(io, heads, 64, 0) {
        Some(Err(e)) => e,
        _ => panic!("expected an error"),
    }
}

#[test]
fn model_names_errors_in_order() {
    let mut a = io();
    a.enc_out.clear();
    a.d0_in.clear();
    assert_eq!(resolve_err(&a, 8), "encoder has no outputs");
    let mut b = io();
    b.d0_in.retain(|n| n != "encoder_hidden_states");
    assert_eq!(resolve_err(&b, 0), "encoder_hidden_states (step 1) not found in model I/O");
    let mut c = io();
    c.d1_out = strings(&["x"]);
    assert_eq!(resolve_err(&c, 8), "logits (cached) not found in model I/O");
    assert_eq!(resolve_err(&io(), 0), "meta.json missing num_decoder_heads/head_dim");
    let mut d = io();
    d.enc_in.truncate(1);
    assert!(tarjama::translate::resolve_model_names(&d, 8, 64, 100).is_none());
    assert!(tarjama::translate::resolve_model_names(&d, 0, 64, 100).is_some());
}

#[test]
fn the_trimmed_text_is_what_gets_encoded() {
    assert_eq!(source_text("  merhaba dunya \n"), Some("merhaba dunya".to_string()));
    assert_eq!(source_text(" \t\n"), None);
    let tok = tokenizer();
    assert!(encoding_is_fixed(&tok));
    assert_eq!(encode_source(&tok, "\t merhaba  "), encode_source(&tok, "merhaba"));
    let plain = Tokenizer::new(BPE::default());
    assert!(encoding_is_fixed(&plain));
    let random = Tokenizer::new(BPE::builder().dropout(0.5).build().expect("valid dropout"));
    assert!(!encoding_is_fixed(&random));
}
