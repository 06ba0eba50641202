//! Scenario tests for the documented behaviour of the whole pipeline:
//! indenting, annotation conversion, comment handling, and the shape
//! of the joined output.

use naromat::entities::chapter::Chapter;
use naromat::entities::line::Line;
use naromat::entities::sentence::Sentence;
use naromat::entities::text_file::TextFile;

#[test]
fn narration_line_gets_fullwidth_indent_and_no_separator() {
    let chapter = Chapter::new("我が輩は猫である。名前はまだない。");
    assert_eq!(chapter.get(), "　我が輩は猫である。名前はまだない。");
}

#[test]
fn kenten_and_ruby_convert_in_one_line() {
    let chapter = Chapter::new("どこで[生まれた:.]のかとんと[見当:けんとう]がつかぬ。");
    assert_eq!(
        chapter.get(),
        "　どこで｜生まれた《・・・・》のかとんと｜見当《けんとう》がつかぬ。"
    );
}

#[test]
fn comment_line_produces_no_output_line_at_all() {
    let chapter = Chapter::new("// コメント行");
    assert_eq!(chapter.get(), "");
}

#[test]
fn angle_comment_and_hash_comment_lines_are_dropped() {
    let chapter = Chapter::new("> 引用風コメント\n# 見出し風コメント\n本文");
    assert_eq!(chapter.get(), "　本文");
}

#[test]
fn speech_line_gets_narrow_indent_and_no_space_before_closer() {
    let chapter = Chapter::new("「こんにちは！」");
    assert_eq!(chapter.get(), " 「こんにちは！」");
}

#[test]
fn comment_span_is_deleted_without_residue() {
    let sentence = Sentence::new("我が輩は猫[#犬にするか要検討]である");
    assert_eq!(sentence.get(), "我が輩は猫である");
}

#[test]
fn kenten_payload_has_one_dot_per_base_character() {
    let sentence = Sentence::new("[田中:.]");
    assert_eq!(sentence.get(), "｜田中《・・》");
    let longer = Sentence::new("[あいうえお:.]");
    assert_eq!(longer.get(), "｜あいうえお《・・・・・》");
}

#[test]
fn formatting_is_not_idempotent() {
    let source = "私は！太郎です。";
    let once = Chapter::new(source).get();
    let twice = Chapter::new(once.as_str()).get();
    assert_eq!(once, "　私は！　太郎です。");
    assert_eq!(twice, "　私は！　　太郎です。");
    assert_ne!(once, twice);
}

#[test]
fn line_count_is_kept_for_non_comment_lines() {
    let chapter = Chapter::new("一行目\n// コメント\n二行目\n三行目");
    let formatted = chapter.get();
    assert_eq!(formatted.lines().count(), 3);
    assert_eq!(formatted, "　一行目\n　二行目\n　三行目");
}

#[test]
fn trailing_line_break_adds_no_extra_line() {
    let chapter = Chapter::new("一行目\n二行目\n");
    assert_eq!(chapter.get(), "　一行目\n　二行目");
}

#[test]
fn text_file_format_ends_with_single_line_break() {
    let file = TextFile::new("我が輩は猫である。\n// コメント行");
    assert_eq!(file.format(), "　我が輩は猫である。\n");
}

#[test]
fn add_header_space_distinguishes_speech_from_narration() {
    assert_eq!(Line::add_header_space("「はい」"), " 「はい」");
    assert_eq!(Line::add_header_space("地の文"), "　地の文");
}

#[test]
fn is_speech_looks_at_first_character() {
    assert!(Line::is_speech("「はい」"));
    assert!(!Line::is_speech("地の文「はい」"));
    assert!(!Line::is_speech(""));
}

#[test]
fn unbalanced_brackets_are_left_verbatim() {
    let sentence = Sentence::new("壊れた[ルビ:syntax");
    assert_eq!(sentence.get(), "壊れた[ルビ:syntax");
}

#[test]
fn exclamation_space_is_inserted_at_sentence_end_too() {
    let sentence = Sentence::new("すごい！");
    assert_eq!(sentence.get(), "すごい！　");
}

#[test]
fn preexisting_space_before_closer_is_kept() {
    let sentence = Sentence::new("「はい　」");
    assert_eq!(sentence.get(), "「はい　」");
}

#[test]
fn line_opening_with_closer_keeps_indent() {
    let line = Line::new("」から始まる行");
    assert_eq!(line.get(), "　」から始まる行");
}

#[test]
fn every_comment_span_is_deleted_at_its_own_close() {
    let sentence = Sentence::new("あ[#一つ目]い[#二つ目]う");
    assert_eq!(sentence.get(), "あいう");
}

#[test]
fn unterminated_comment_span_is_left_verbatim() {
    let sentence = Sentence::new("あ[#閉じない");
    assert_eq!(sentence.get(), "あ[#閉じない");
}
