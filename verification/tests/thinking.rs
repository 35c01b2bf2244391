use nine_rai::translate::thinking::{Split, ThinkingSplitter};

/// Feed a whole string one chunk at a time and collect the totals.
fn split_chunks(chunks: &[&str]) -> Split {
    let mut s = ThinkingSplitter::new();
    let mut total = Split::default();
    for c in chunks {
        let part = s.push(c);
        total.reasoning.push_str(&part.reasoning);
        total.text.push_str(&part.text);
    }
    let tail = s.flush();
    total.reasoning.push_str(&tail.reasoning);
    total.text.push_str(&tail.text);
    total
}

#[test]
fn passes_plain_text_through_untouched() {
    let out = split_chunks(&["hello world"]);
    assert_eq!(out.text, "hello world");
    assert!(out.reasoning.is_empty());
}

#[test]
fn separates_a_complete_block() {
    let out = split_chunks(&["a<thinking>why</thinking>b"]);
    assert_eq!(out.reasoning, "why");
    assert_eq!(out.text, "ab");
}

#[test]
fn supports_the_short_tag_spelling() {
    let out = split_chunks(&["<think>hm</think>done"]);
    assert_eq!(out.reasoning, "hm");
    assert_eq!(out.text, "done");
}

#[test]
fn keeps_every_block_not_just_the_first() {
    let out = split_chunks(&["<think>one</think>mid<think>two</think>end"]);
    assert_eq!(out.reasoning, "onetwo");
    assert_eq!(out.text, "midend");
}

#[test]
fn a_tag_split_across_chunks_is_not_leaked_as_text() {
    let out = split_chunks(&["a<thin", "king>why</thin", "king>b"]);
    assert_eq!(out.reasoning, "why");
    assert_eq!(out.text, "ab");
}

#[test]
fn an_unterminated_block_becomes_reasoning_at_eof() {
    let out = split_chunks(&["a<thinking>dangling"]);
    assert_eq!(out.reasoning, "dangling");
    assert_eq!(out.text, "a");
}

#[test]
fn a_dangling_lookalike_stays_text() {
    let out = split_chunks(&["2 < 3 and x<thi"]);
    assert_eq!(out.text, "2 < 3 and x<thi");
    assert!(out.reasoning.is_empty());
}

#[test]
fn does_not_weld_words_around_a_block() {
    let out = split_chunks(&["before <think>x</think> after"]);
    assert_eq!(out.text, "before  after");
}

#[test]
fn result_is_independent_of_chunk_boundaries() {
    let full = "aa<thinking>rr</thinking>bb<think>ss</think>cc";
    let expected = split_chunks(&[full]);
    for cut in 1..full.len() {
        if !full.is_char_boundary(cut) {
            continue;
        }
        let got = split_chunks(&[&full[..cut], &full[cut..]]);
        assert_eq!(got, expected, "mismatch when split at {cut}");
    }
}

#[test]
fn handles_multibyte_text_around_tags() {
    let out = split_chunks(&["xin chào <think>suy nghĩ</think> bạn"]);
    assert_eq!(out.reasoning, "suy nghĩ");
    assert_eq!(out.text, "xin chào  bạn");
}

#[test]
fn tags_match_whatever_the_case_of_their_letters() {
    let out = split_chunks(&["A<THINK>Why</Think>B"]);
    assert_eq!(out.reasoning, "Why");
    assert_eq!(out.text, "AB");
}

#[test]
fn a_block_closes_with_its_own_spelling_only() {
    let out = split_chunks(&["<think>a</thinking>b</think>c"]);
    assert_eq!(out.reasoning, "a</thinking>b");
    assert_eq!(out.text, "c");
}

#[test]
fn nothing_is_emitted_while_a_tag_may_still_grow() {
    let mut s = ThinkingSplitter::default();
    let part = s.push("x<thinkin");
    assert_eq!(part.text, "x");
    assert!(part.reasoning.is_empty());
    let part = s.push("");
    assert!(part.is_empty());
}

#[test]
fn only_the_tags_vanish() {
    let stream = "t0</think>\n<THINK>r1<thinking>r1</thinking></Think>t1<thinking>r2</thinking>\
<think></think>t2</thinking><thinking>r3</think> and on";
    let whole = split_chunks(&[stream]);
    assert_eq!(whole.text, "t0</think>\nt1t2</thinking>");
    assert_eq!(whole.reasoning, "r1<thinking>r1</thinking>r2r3</think> and on");
    let letters: Vec<String> = stream.chars().map(String::from).collect();
    let pieces: Vec<&str> = letters.iter().map(String::as_str).collect();
    assert_eq!(split_chunks(&pieces).text, whole.text);
    assert_eq!(split_chunks(&pieces).reasoning, whole.reasoning);
}
