use oxide_rs::inference::generator::{
    goes_on, recent, take_drawn, trim_count, ChatTemplate, GenerateError, Generator, Message,
    StreamEvent, TemplateError,
};
use oxide_rs::model::metadata::GgufMetadata;
use oxide_rs::model::tokenizer::TokenizerWrapper;

const EOS: u32 = 2;
const H: u32 = 3;
const I: u32 = 4;
const HI: u32 = 5;
const FIRST_BYTE: u32 = 7;
const SECOND_BYTE: u32 = 8;
const BANG: u32 = 9;

const TEMPLATE: &str = "{% for m in messages %}{{ m.role }}:{{ m.content }}|{% endfor %}";

fn definition() -> Vec<u8> {
    let special = |id: u32, content: &str| {
        format!(
            "{{\"id\":{},\"content\":\"{}\",\"single_word\":false,\"lstrip\":false,\"rstrip\":false,\"normalized\":false,\"special\":true}}",
            id, content
        )
    };
    let vocab = [
        ("<unk>", "0.0"),
        ("<s>", "0.0"),
        ("</s>", "0.0"),
        ("h", "-2.0"),
        ("i", "-2.5"),
        ("hi", "-1.0"),
        (" ", "-1.5"),
        ("<0xC3>", "-6.0"),
        ("<0xA9>", "-6.0"),
        ("!", "-3.0"),
    ];
    let entries: Vec<String> =
        vocab.iter().map(|(t, s)| format!("[\"{}\",{}]", t, s)).collect();
    let text = format!(
        "{{\"version\":\"1.0\",\"truncation\":null,\"padding\":null,\"added_tokens\":[{},{},{}],\"normalizer\":null,\"pre_tokenizer\":null,\"post_processor\":null,\"decoder\":{{\"type\":\"Sequence\",\"decoders\":[{{\"type\":\"ByteFallback\"}},{{\"type\":\"Fuse\"}}]}},\"model\":{{\"type\":\"Unigram\",\"unk_id\":0,\"vocab\":[{}],\"byte_fallback\":false}}}}",
        special(0, "<unk>"),
        special(1, "<s>"),
        special(2, "</s>"),
        entries.join(",")
    );
    text.into_bytes()
}

fn metadata(context_length: usize, template: Option<&str>) -> GgufMetadata {
    GgufMetadata {
        name: "tiny".to_string(),
        architecture: "llama".to_string(),
        n_layer: 2,
        n_embd: 8,
        vocab_size: 10,
        context_length,
        file_size: 0,
        chat_template: template.map(|t| t.to_string()),
        quantization: None,
    }
}

fn generator(context_length: usize, system: Option<&str>) -> Generator {
    let tokenizer = TokenizerWrapper::from_file(&definition()).unwrap();
    Generator::new(
        metadata(context_length, Some(TEMPLATE)),
        tokenizer,
        system.map(|s| s.to_string()),
    )
    .unwrap()
}

fn describe(events: &[StreamEvent]) -> Vec<String> {
    events
        .iter()
        .map(|e| match e {
            StreamEvent::PrefillStatus(n) => format!("prefill {}", n),
            StreamEvent::Token(t) => format!("token {}", t),
            StreamEvent::Done => "done".to_string(),
        })
        .collect()
}

fn fragments(events: &[StreamEvent]) -> String {
    events
        .iter()
        .map(|e| match e {
            StreamEvent::Token(t) => t.clone(),
            _ => String::new(),
        })
        .collect()
}

#[test]
fn a_single_token_is_generated_after_the_prefill() {
    let mut g = generator(4096, None);
    let prompt: Vec<u32> = vec![1, 3, 4, 3, 4, 3, 4, 3, 4, 9];
    let mut calls: Vec<(Vec<u32>, usize, Vec<u32>)> = Vec::new();
    let mut next = |input: &[u32], pos: usize, seen: &[u32]| -> Result<u32, String> {
        calls.push((input.to_vec(), pos, seen.to_vec()));
        Ok(HI)
    };
    let mut events: Vec<StreamEvent> = Vec::new();
    let mut on_event = |e: StreamEvent| events.push(e);
    let text = g
        .generate_internal_with_tokens(&prompt, 1, 64, true, &mut next, &mut on_event)
        .unwrap();
    assert_eq!(text, "hi");
    assert_eq!(describe(&events), vec!["prefill 10", "token hi", "done"]);
    assert_eq!(describe(g.transcript()), describe(&events));
    assert_eq!(g.context_used(), 11);
    assert_eq!(g.context_limit(), 4096);
    assert_eq!(calls, vec![(prompt.clone(), 0, vec![])]);
    assert_eq!(g.last_response(), &vec![HI]);
}

#[test]
fn the_oldest_tokens_make_room_for_the_prompt() {
    let mut g = generator(200, None);
    let first_prompt: Vec<u32> = (0..190).map(|i| 3 + (i % 2) as u32).collect();
    let mut fill = |_: &[u32], _: usize, _: &[u32]| -> Result<u32, String> { Ok(BANG) };
    let mut quiet = |_: StreamEvent| {};
    g.generate_internal_with_tokens(&first_prompt, 5, 64, true, &mut fill, &mut quiet).unwrap();
    assert_eq!(g.context_used(), 195);
    let before = g.token_history().clone();

    let prompt: Vec<u32> = vec![HI; 20];
    let script = [H, I, EOS];
    let mut at = 0;
    let mut next = |_: &[u32], _: usize, _: &[u32]| -> Result<u32, String> {
        at += 1;
        Ok(script[at - 1])
    };
    g.generate_internal_with_tokens(&prompt, 50, 64, true, &mut next, &mut quiet).unwrap();
    assert_eq!(trim_count(195, 20, 50, 200), 65);
    assert_eq!(g.context_used(), 130 + 20 + 3);
    assert!(g.context_used() <= g.context_limit());
    let after = g.token_history();
    assert_eq!(&after[..130], &before[65..]);
    assert_eq!(&after[130..150], &prompt[..]);
    assert_eq!(&after[150..], &[H, I, EOS]);
}

#[test]
fn the_same_tokens_give_the_same_reply_twice() {
    let mut g = generator(4096, None);
    let script = [H, I, BANG, BANG, BANG, BANG];
    let mut replies: Vec<String> = Vec::new();
    for _ in 0..2 {
        let mut at = 0;
        let mut next = |_: &[u32], _: usize, _: &[u32]| -> Result<u32, String> {
            at += 1;
            Ok(script[at - 1])
        };
        let mut quiet = |_: StreamEvent| {};
        replies.push(g.generate("hi", 4, 64, &mut next, &mut quiet).unwrap());
        g.clear_history();
        assert_eq!(g.context_used(), 0);
        assert_eq!(g.messages().len(), 0);
    }
    assert_eq!(replies[0], "hi!!");
    assert_eq!(replies[0].as_bytes(), replies[1].as_bytes());
}

#[test]
fn the_end_of_sequence_ends_the_reply_early() {
    let mut g = generator(4096, None);
    let script = [H, I, EOS, BANG, BANG];
    let mut calls = 0;
    let mut next = |_: &[u32], _: usize, _: &[u32]| -> Result<u32, String> {
        calls += 1;
        Ok(script[calls - 1])
    };
    let mut events: Vec<StreamEvent> = Vec::new();
    let mut on_event = |e: StreamEvent| events.push(e);
    let text = g.generate("hi", 100, 64, &mut next, &mut on_event).unwrap();
    assert_eq!(calls, 3);
    assert_eq!(text, "hi</s>");
    let told = describe(&events);
    assert!(told[0].starts_with("prefill "));
    assert_eq!(&told[1..], &["token h", "token i", "token </s>", "done"]);
    assert_eq!(g.last_response(), &vec![H, I, EOS]);
    assert_eq!(fragments(&events), text);
}

#[test]
fn an_early_end_of_sequence_is_the_whole_reply() {
    let mut g = generator(4096, None);
    let mut calls = 0;
    let mut next = |_: &[u32], _: usize, _: &[u32]| -> Result<u32, String> {
        calls += 1;
        Ok(EOS)
    };
    let mut quiet = |_: StreamEvent| {};
    let text = g.generate("hi", 10, 64, &mut next, &mut quiet).unwrap();
    assert_eq!(calls, 1);
    assert_eq!(text, "</s>");
}

#[test]
fn events_carry_the_text_of_the_reply() {
    let mut g = generator(4096, None);
    let script = [H, FIRST_BYTE, SECOND_BYTE, BANG, FIRST_BYTE];
    let mut at = 0;
    let mut next = |_: &[u32], _: usize, _: &[u32]| -> Result<u32, String> {
        at += 1;
        Ok(script[at - 1])
    };
    let mut events: Vec<StreamEvent> = Vec::new();
    let mut on_event = |e: StreamEvent| events.push(e);
    let text = g.generate("hi", 5, 64, &mut next, &mut on_event).unwrap();
    assert_eq!(text, "h\u{e9}!\u{FFFD}");
    let told = describe(&events);
    assert_eq!(
        &told[1..],
        &["token h", "token \u{e9}", "token !", "token \u{FFFD}", "done"]
    );
    assert_eq!(fragments(&events), text);
    for event in &events[..events.len() - 2] {
        if let StreamEvent::Token(t) = event {
            assert!(!t.contains('\u{FFFD}'));
        }
    }
}

#[test]
fn the_model_is_fed_the_last_token_and_what_was_seen() {
    let mut g = generator(4096, None);
    let prompt: Vec<u32> = vec![1, H, I];
    let script = [HI, BANG, H];
    let mut calls: Vec<(Vec<u32>, usize, Vec<u32>)> = Vec::new();
    let mut next = |input: &[u32], pos: usize, seen: &[u32]| -> Result<u32, String> {
        calls.push((input.to_vec(), pos, seen.to_vec()));
        Ok(script[calls.len() - 1])
    };
    let mut quiet = |_: StreamEvent| {};
    g.generate_internal_with_tokens(&prompt, 3, 2, true, &mut next, &mut quiet).unwrap();
    assert_eq!(
        calls,
        vec![
            (vec![1, H, I], 0, vec![]),
            (vec![HI], 3, vec![I, HI]),
            (vec![BANG], 4, vec![HI, BANG]),
        ]
    );
    assert_eq!(g.token_history(), &vec![1, H, I, HI, BANG, H]);
}

#[test]
fn recently_seen_tokens_are_the_last_ones() {
    let tokens = vec![1, 2, 3, 4, 5];
    assert_eq!(recent(&tokens, 2), &[4, 5]);
    assert_eq!(recent(&tokens, 5), &[1, 2, 3, 4, 5]);
    assert_eq!(recent(&tokens, 9), &[1, 2, 3, 4, 5]);
    assert_eq!(recent(&tokens, 0), &[] as &[u32]);
    assert_eq!(recent(&Vec::new(), 3), &[] as &[u32]);
}

#[test]
fn the_history_loses_just_the_excess() {
    assert_eq!(trim_count(195, 20, 50, 200), 65);
    assert_eq!(trim_count(10, 20, 50, 200), 0);
    assert_eq!(trim_count(130, 20, 50, 200), 0);
    assert_eq!(trim_count(131, 20, 50, 200), 1);
    assert_eq!(trim_count(100, 150, 50, 200), 100);
    assert_eq!(trim_count(100, 120, 81, 200), 100);
    assert_eq!(trim_count(100, 300, 0, 200), 100);
    assert_eq!(trim_count(0, 300, 0, 200), 0);
    assert_eq!(trim_count(10, usize::MAX, usize::MAX, 200), 10);
}

#[test]
fn a_conversation_grows_by_prompt_and_reply() {
    let mut g = generator(4096, Some("be brief"));
    let mut next = |_: &[u32], _: usize, _: &[u32]| -> Result<u32, String> { Ok(HI) };
    let mut events: Vec<StreamEvent> = Vec::new();
    let mut on_event = |e: StreamEvent| events.push(e);
    let text = g.generate("hi!", 2, 64, &mut next, &mut on_event).unwrap();
    assert_eq!(text, "hihi");
    let turns: Vec<(String, String)> =
        g.messages().iter().map(|m| (m.role.clone(), m.content.clone())).collect();
    assert_eq!(
        turns,
        vec![
            ("user".to_string(), "hi!".to_string()),
            ("assistant".to_string(), "hihi".to_string())
        ]
    );
    let prompt_tokens = match &events[0] {
        StreamEvent::PrefillStatus(n) => *n,
        _ => panic!("the first event must be the prefill"),
    };
    assert_eq!(g.context_used(), prompt_tokens + 2);
    assert_eq!(g.token_history()[0], 1);
    let used = g.context_used();
    let mut quiet = |_: StreamEvent| {};
    g.generate("hi", 1, 64, &mut next, &mut quiet).unwrap();
    assert_eq!(g.messages().len(), 4);
    assert!(g.context_used() > used);
    assert!(g.context_used() <= g.context_limit());
}

#[test]
fn a_failing_model_leaves_the_conversation_alone() {
    let mut g = generator(4096, None);
    let mut good = |_: &[u32], _: usize, _: &[u32]| -> Result<u32, String> { Ok(HI) };
    let mut quiet = |_: StreamEvent| {};
    g.generate("hi", 1, 64, &mut good, &mut quiet).unwrap();
    let history = g.token_history().clone();
    let mut calls = 0;
    let mut bad = |_: &[u32], _: usize, _: &[u32]| -> Result<u32, String> {
        calls += 1;
        if calls < 3 {
            Ok(HI)
        } else {
            Err("backend gave up".to_string())
        }
    };
    match g.generate("hi", 8, 64, &mut bad, &mut quiet) {
        Err(GenerateError::Inference(why)) => assert_eq!(why, "backend gave up"),
        other => panic!("expected an inference error, got {:?}", other),
    }
    assert_eq!(g.messages().len(), 2);
    assert_eq!(g.token_history(), &history);
}

#[test]
fn a_token_outside_the_vocabulary_is_an_error() {
    let mut g = generator(4096, None);
    let mut next = |_: &[u32], _: usize, _: &[u32]| -> Result<u32, String> { Ok(10) };
    let mut quiet = |_: StreamEvent| {};
    assert!(matches!(
        g.generate("hi", 4, 64, &mut next, &mut quiet),
        Err(GenerateError::Inference(_))
    ));
    assert_eq!(g.context_used(), 0);
    assert_eq!(g.messages().len(), 0);
}

#[test]
fn a_prompt_that_does_not_fit_is_turned_down() {
    let mut g = generator(8, None);
    let mut quiet = |_: StreamEvent| {};
    let prompt: Vec<u32> = vec![H; 8];
    let mut calls = 0;
    {
        let mut counted = |_: &[u32], _: usize, _: &[u32]| -> Result<u32, String> {
            calls += 1;
            Ok(HI)
        };
        assert!(matches!(
            g.generate_internal_with_tokens(&prompt, 1, 64, true, &mut counted, &mut quiet),
            Err(GenerateError::ContextOverflow)
        ));
        assert!(matches!(
            g.generate_internal_with_tokens(&prompt[..6], 3, 64, true, &mut counted, &mut quiet),
            Err(GenerateError::ContextOverflow)
        ));
    }
    assert_eq!(calls, 0);
    let mut next = |_: &[u32], _: usize, _: &[u32]| -> Result<u32, String> { Ok(HI) };
    g.generate_internal_with_tokens(&prompt[..6], 2, 64, true, &mut next, &mut quiet).unwrap();
    assert_eq!(g.context_used(), 8);
    assert!(matches!(
        g.generate_internal_with_tokens(&[], 2, 64, true, &mut next, &mut quiet),
        Err(GenerateError::Inference(_))
    ));
}

#[test]
fn no_token_asked_for_still_gives_one() {
    let mut g = generator(16, None);
    let mut next = |_: &[u32], _: usize, _: &[u32]| -> Result<u32, String> { Ok(HI) };
    let mut quiet = |_: StreamEvent| {};
    let text = g.generate_internal_with_tokens(&[1, H], 0, 64, true, &mut next, &mut quiet).unwrap();
    assert_eq!(text, "hi");
    assert_eq!(g.context_used(), 3);
}

#[test]
fn a_batch_answers_each_prompt_on_its_own() {
    let mut g = generator(4096, Some("be brief"));
    let mut good = |_: &[u32], _: usize, _: &[u32]| -> Result<u32, String> { Ok(HI) };
    let mut quiet = |_: StreamEvent| {};
    g.generate("hi", 1, 64, &mut good, &mut quiet).unwrap();
    let used = g.context_used();
    let script = [H, EOS, I, BANG, EOS, BANG, BANG, BANG];
    let mut at = 0;
    let mut next = |_: &[u32], pos: usize, _: &[u32]| -> Result<u32, String> {
        at += 1;
        let _ = pos;
        Ok(script[at - 1])
    };
    let prompts = vec!["hi".to_string(), "hi!".to_string(), "h".to_string()];
    let texts = g.generate_batch(&prompts, 3, 64, &mut next).unwrap();
    assert_eq!(texts, vec!["h</s>", "i!</s>", "!!!"]);
    assert_eq!(g.context_used(), used);
    assert_eq!(g.messages().len(), 2);
    let none: Vec<String> = Vec::new();
    assert_eq!(g.generate_batch(&none, 3, 64, &mut next).unwrap(), Vec::<String>::new());
}

#[test]
fn a_model_without_template_gets_no_generator() {
    let tokenizer = TokenizerWrapper::from_file(&definition()).unwrap();
    match Generator::new(metadata(64, None), tokenizer, None) {
        Err(GenerateError::Template(TemplateError::Missing)) => {}
        _ => panic!("expected the template to be missed"),
    }
}

#[test]
fn context_use_is_reported_in_percent() {
    let mut g = generator(10, None);
    assert_eq!(g.context_percentage(), 0);
    assert!(!g.context_warning());
    let mut next = |_: &[u32], _: usize, _: &[u32]| -> Result<u32, String> { Ok(HI) };
    let mut quiet = |_: StreamEvent| {};
    g.generate_internal_with_tokens(&[1, H, I, H, I, H], 1, 64, true, &mut next, &mut quiet)
        .unwrap();
    assert_eq!(g.context_used(), 7);
    assert_eq!(g.context_percentage(), 70);
    assert!(!g.context_warning());
    g.generate_internal_with_tokens(&[H], 1, 64, true, &mut next, &mut quiet).unwrap();
    assert_eq!(g.context_used(), 9);
    assert_eq!(g.context_percentage(), 90);
    assert!(g.context_warning());
    g.clear_history();
    assert_eq!(g.context_percentage(), 0);
}

#[test]
fn the_cache_is_sized_for_the_context() {
    let mut g = generator(100, None);
    assert_eq!(g.kv_cache_stats(), Some((0, 112)));
    g.clear_kv_cache();
    assert_eq!(g.kv_cache_stats(), Some((0, 112)));
    assert_eq!(g.metadata().name, "tiny");
}

#[test]
fn a_template_renders_the_turns_in_order() {
    let template = ChatTemplate::new(Some(TEMPLATE.to_string())).unwrap();
    assert!(template.is_present());
    let turns = vec![
        Message { role: "system".to_string(), content: "be brief".to_string() },
        Message { role: "user".to_string(), content: "hi".to_string() },
    ];
    assert_eq!(template.apply(&turns).unwrap(), "system:be brief|user:hi|");
    assert_eq!(template.apply(&Vec::new()).unwrap(), "");
    let copy = template.clone();
    assert_eq!(copy.apply(&turns).unwrap(), "system:be brief|user:hi|");
}

#[test]
fn a_template_can_test_roles() {
    let source = "{% for m in messages %}{% if m['role'] == 'user' %}<{{ m['content'] }}>{% else %}[{{ m.content }}]{% endif %}{% endfor %}{{ messages | length }}";
    let template = ChatTemplate::new(Some(source.to_string())).unwrap();
    let turns = vec![
        Message { role: "user".to_string(), content: "a".to_string() },
        Message { role: "assistant".to_string(), content: "b".to_string() },
    ];
    assert_eq!(template.apply(&turns).unwrap(), "<a>[b]2");
}

#[test]
fn a_missing_template_renders_nothing() {
    let template = ChatTemplate::new(None).unwrap();
    assert!(!template.is_present());
    assert!(matches!(template.apply(&Vec::new()), Err(TemplateError::Missing)));
}

#[test]
fn a_broken_template_fails_to_render() {
    let template = ChatTemplate::new(Some("{% for m in %}".to_string())).unwrap();
    assert!(matches!(template.apply(&Vec::new()), Err(TemplateError::Render(_))));
}

#[test]
fn a_batch_in_tokens_answers_each_prompt() {
    let mut g = generator(16, None);
    let script = [H, EOS, I, BANG];
    let mut at = 0;
    let mut next = |_: &[u32], _: usize, _: &[u32]| -> Result<u32, String> {
        at += 1;
        Ok(script[at - 1])
    };
    let prompts = vec![vec![1, H], vec![1, I, BANG]];
    let texts = g.generate_batch_tokens(&prompts, 2, 64, &mut next).unwrap();
    assert_eq!(texts, vec!["h</s>", "i!"]);
    assert_eq!(g.last_response(), &vec![I, BANG]);
    assert_eq!(g.context_used(), 0);
    let none: Vec<Vec<u32>> = Vec::new();
    assert_eq!(g.generate_batch_tokens(&none, 2, 64, &mut next).unwrap(), Vec::<String>::new());
}

#[test]
fn a_batch_fails_with_its_first_prompt_that_cannot_be_answered() {
    let mut g = generator(8, None);
    let mut calls = 0;
    {
        let mut next = |_: &[u32], _: usize, _: &[u32]| -> Result<u32, String> {
            calls += 1;
            Ok(HI)
        };
        let empty_first = vec![vec![], vec![1, H]];
        assert!(matches!(
            g.generate_batch_tokens(&empty_first, 2, 64, &mut next),
            Err(GenerateError::Inference(_))
        ));
        let long_first = vec![vec![H; 7], vec![1, H]];
        assert!(matches!(
            g.generate_batch_tokens(&long_first, 2, 64, &mut next),
            Err(GenerateError::ContextOverflow)
        ));
    }
    assert_eq!(calls, 0);
    let mut next = |_: &[u32], _: usize, _: &[u32]| -> Result<u32, String> { Ok(HI) };
    let long_second = vec![vec![1, H], vec![H; 7]];
    assert!(matches!(
        g.generate_batch_tokens(&long_second, 2, 64, &mut next),
        Err(GenerateError::ContextOverflow)
    ));
    assert_eq!(g.context_used(), 0);
}

#[test]
fn a_drawn_token_is_taken_or_turned_down() {
    assert!(matches!(take_drawn(Ok(9), 10), Ok(9)));
    assert!(matches!(take_drawn(Ok(0), 1), Ok(0)));
    match take_drawn(Ok(10), 10) {
        Err(GenerateError::Inference(why)) => assert_eq!(why, "The token drawn is not of the vocabulary"),
        _ => panic!("expected an inference error"),
    }
    match take_drawn(Err("no logits".to_string()), 10) {
        Err(GenerateError::Inference(why)) => assert_eq!(why, "no logits"),
        _ => panic!("expected an inference error"),
    }
    assert!(matches!(take_drawn(Ok(0), 0), Err(GenerateError::Inference(_))));
}

#[test]
fn drawing_goes_on_until_the_budget_or_the_end_of_sequence() {
    assert!(goes_on(1, 3, HI, EOS));
    assert!(goes_on(2, 3, HI, EOS));
    assert!(!goes_on(3, 3, HI, EOS));
    assert!(!goes_on(1, 3, EOS, EOS));
    assert!(!goes_on(1, 0, HI, EOS));
    assert!(!goes_on(1, 1, HI, EOS));
}

#[test]
fn a_reply_that_ends_third_asks_the_model_three_times() {
    let mut g = generator(4096, None);
    let prompt: Vec<u32> = vec![1, H, I];
    let script = [H, I, EOS, BANG, BANG];
    let mut calls: Vec<(Vec<u32>, usize, Vec<u32>)> = Vec::new();
    let mut next = |input: &[u32], pos: usize, seen: &[u32]| -> Result<u32, String> {
        calls.push((input.to_vec(), pos, seen.to_vec()));
        Ok(script[calls.len() - 1])
    };
    let mut events: Vec<StreamEvent> = Vec::new();
    let mut on_event = |e: StreamEvent| events.push(e);
    let before = g.context_used();
    g.generate_internal_with_tokens(&prompt, 100, 64, true, &mut next, &mut on_event).unwrap();
    assert_eq!(
        calls,
        vec![
            (vec![1, H, I], 0, vec![]),
            (vec![H], 3, vec![1, H, I, H]),
            (vec![I], 4, vec![1, H, I, H, I]),
        ]
    );
    assert_eq!(g.last_response(), &vec![H, I, EOS]);
    assert_eq!(g.context_used(), before + 3 + 3);
    let tokens = events.iter().filter(|e| matches!(e, StreamEvent::Token(_))).count();
    assert!(tokens <= 3);
    assert!(events.len() <= 3 + 2);
    assert!(matches!(events.first(), Some(StreamEvent::PrefillStatus(3))));
    assert!(matches!(events.last(), Some(StreamEvent::Done)));
    assert_eq!(events.iter().filter(|e| matches!(e, StreamEvent::Done)).count(), 1);
}

#[test]
fn a_turn_in_tokens_joins_the_conversation() {
    let mut g = generator(4096, None);
    let mut next = |_: &[u32], _: usize, _: &[u32]| -> Result<u32, String> { Ok(HI) };
    let mut quiet = |_: StreamEvent| {};
    let text = g.generate_turn("hello", &[1, H, I], 2, 64, &mut next, &mut quiet).unwrap();
    assert_eq!(text, "hihi");
    assert_eq!(g.messages().len(), 2);
    assert_eq!(g.messages()[0].role, "user");
    assert_eq!(g.messages()[0].content, "hello");
    assert_eq!(g.messages()[1].role, "assistant");
    assert_eq!(g.messages()[1].content, "hihi");
    assert_eq!(g.token_history(), &vec![1, H, I, HI, HI]);

    let mut failing = |_: &[u32], _: usize, _: &[u32]| -> Result<u32, String> {
        Err("gone".to_string())
    };
    assert!(matches!(
        g.generate_turn("again", &[1, H], 2, 64, &mut failing, &mut quiet),
        Err(GenerateError::Inference(_))
    ));
    assert_eq!(g.messages().len(), 2);
    assert_eq!(g.token_history(), &vec![1, H, I, HI, HI]);
    assert!(matches!(
        g.generate_turn("again", &[], 2, 64, &mut next, &mut quiet),
        Err(GenerateError::Inference(_))
    ));
}

#[test]
fn a_model_that_answers_alike_gives_the_same_reply_after_the_history_is_cleared() {
    let mut g = generator(4096, None);
    let mut next = |input: &[u32], pos: usize, seen: &[u32]| -> Result<u32, String> {
        let sum: usize = input.iter().map(|t| *t as usize).sum::<usize>() + pos + seen.len();
        Ok([H, I, HI, BANG][sum % 4])
    };
    let mut quiet = |_: StreamEvent| {};
    let first = g.generate("2 + 2 =", 4, 64, &mut next, &mut quiet).unwrap();
    let reply = g.last_response().clone();
    g.clear_history();
    let second = g.generate("2 + 2 =", 4, 64, &mut next, &mut quiet).unwrap();
    assert_eq!(first, second);
    assert_eq!(g.last_response(), &reply);
    assert_eq!(reply.len(), 4);
}
