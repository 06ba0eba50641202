use naromat::entities::chapter::Chapter;
use naromat::entities::line::Line;
use naromat::entities::sentence::Sentence;

#[test]
fn chapter_get() {
    let source = "我が輩は猫である。名前はまだない。
どこで[生まれた:.]のかとんと[見当:けんとう]がつかぬ。
// コメント行";
    let expected = "　我が輩は猫である。名前はまだない。
　どこで｜生まれた《・・・・》のかとんと｜見当《けんとう》がつかぬ。";
    let chapter = Chapter::new(source);
    assert_eq!(chapter.get(), expected);
}

#[test]
fn line_get() {
    let source = "我が[輩:.]は[猫:ねこ]である。どこで生まれたかとんと見当がつかぬ。";
    let expected = "　我が｜輩《・》は｜猫《ねこ》である。どこで生まれたかとんと見当がつかぬ。";
    let line = Line::new(source);
    assert_eq!(line.get(), expected);
}

#[test]
fn get_min() {
    let source = "我";
    let expected = "　我";
    let line = Line::new(source);
    assert_eq!(line.get(), expected);
}

#[test]
fn is_comment_should_return_false_when_body_string() {
    assert!(!Line::is_comment("吾輩は猫である"));
}

#[test]
fn is_comment_should_return_true_when_comment_string() {
    assert!(Line::is_comment("// 吾輩は猫である"));
}

#[test]
fn is_comment_should_return_true_when_half_spaced_comment_string() {
    assert!(Line::is_comment(" // 吾輩は猫である"));
}

#[test]
fn is_comment_should_return_true_when_full_spaced_comment_string() {
    assert!(Line::is_comment("　// 吾輩は猫である"));
}

#[test]
fn is_comment_should_return_true_when_multi_half_spaced_comment_string() {
    assert!(Line::is_comment("  // 吾輩は猫である"));
}

#[test]
fn is_comment_should_return_true_when_multi_full_spaced_comment_string() {
    assert!(Line::is_comment("　　// 吾輩は猫である"));
}

#[test]
fn sentence_get() {
    let source = "私の[名前:なまえ]は！[田中:.]？太郎!?です";
    let expected = "私の｜名前《なまえ》は！　｜田中《・・》？　太郎!?　です";
    let sentence = Sentence::new(source);
    assert_eq!(sentence.get(), expected);
}

#[test]
fn format() {
    let source = "私の[名前:なまえ]は！[田中:.]？太郎!?です";
    let expected = "私の｜名前《なまえ》は！　｜田中《・・》？　太郎!?　です";
    let sentence = Sentence::new(source).format();
    assert_eq!(sentence.elements, expected);
}

#[test]
fn format_min() {
    let source = "私";
    let expected = "私";
    let sentence = Sentence::new(source).format();
    assert_eq!(sentence.elements, expected);
}

#[test]
fn add_space_after_exclamation() {
    let source = "私の名前は！田中？太郎!?です";
    let expected = "私の名前は！　田中？　太郎!?　です";
    let sentence = Sentence::new(source).add_space_after_exclamation();
    assert_eq!(sentence.elements, expected);
}

#[test]
fn convert_ruby_should_convert_ruby() {
    let sut = Sentence::new("私の[名前:なまえ]は[太郎:たろう]です");
    let expected = "私の｜名前《なまえ》は｜太郎《たろう》です";
    assert_eq!(sut.convert_ruby().elements, expected);
}

#[test]
fn convert_ruby_should_not_convert_broken_syntax_ruby() {
    let sut = Sentence::new("私の[名前:なまえは[太郎:たろうです");
    let expected = "私の[名前:なまえは[太郎:たろうです";
    assert_eq!(sut.convert_ruby().elements, expected);
}

#[test]
fn convert_kenten_should_convert_kenten() {
    let sut = Sentence::new("私の[名前:.]は[たろう:.]です");
    let expected = "私の｜名前《・・》は｜たろう《・・・》です";
    assert_eq!(sut.convert_kenten().elements, expected);
}

#[test]
fn drop_comment_should_drop_comment() {
    let sentence = Sentence::new("我が輩は猫[#犬にするか要検討]である").drop_comment();
    assert_eq!(sentence.drop_comment().elements, "我が輩は猫である")
}

#[test]
fn drop_comment_should_drop_empty_comment() {
    let sentence = Sentence::new("我が輩は犬[#]である").drop_comment();
    assert_eq!(sentence.drop_comment().elements, "我が輩は犬である")
}
