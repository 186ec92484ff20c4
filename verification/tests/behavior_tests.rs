//! Tests of the stated behavior: comment stripping, failure modes, the
//! duplicate-name policy, and the integer geometry.

use pbrt::geometry::{Sqrt, Vector3};
use pbrt::paramset::{ParamSet, ParamSetItem, Value};
use pbrt::parser::{look_at, param_set_item, parse_scene, strip_comment, Error};

#[test]
fn test_strip_comment_idempotent() {
    // On comment-free input stripping changes nothing.
    let clean: &[u8] = b"a \nb \n";
    assert_eq!(strip_comment(clean), clean.to_vec());
    // One pass replaces each comment run with a line feed; a second pass
    // then finds nothing left to strip.
    let once = strip_comment(b"a # x\nb # y\n");
    assert_eq!(once, b"a \nb \n".to_vec());
    assert_eq!(strip_comment(&once), once);
    // A comment without a closing line feed is kept, and kept stable.
    let tail = strip_comment(b"a\n# open");
    assert_eq!(tail, b"a\n# open".to_vec());
    assert_eq!(strip_comment(&tail), tail);
}

#[test]
fn test_unbalanced_attribute_scope() {
    let input: &[u8] = b"Integrator \"path\"\nWorldBegin\nAttributeBegin\nMaterial \"mirror\"\n";
    assert_eq!(parse_scene(input), Err(Error::UnbalancedAttributeScope));
}

#[test]
fn test_attribute_end_without_open_scope() {
    let input: &[u8] = b"Integrator \"path\"\nWorldBegin\nMaterial \"mirror\"\nAttributeEnd\nWorldEnd\n";
    assert_eq!(parse_scene(input), Err(Error::UnbalancedAttributeScope));
}

#[test]
fn test_unknown_parameter_type() {
    let input: &[u8] = b"\"vector foo\" [1 2 3]";
    assert_eq!(
        param_set_item(input, 0),
        Err(Error::UnknownParameterType(b"vector".to_vec(), 1))
    );
    // Through the whole parse the same failure comes back as a value, with
    // its position in the comment-stripped buffer.
    let scene: &[u8] = b"WorldBegin Shape \"s\" \"vector foo\" [1 2 3] WorldEnd";
    match parse_scene(scene) {
        Err(Error::UnknownParameterType(tag, pos)) => {
            assert_eq!(tag, b"vector".to_vec());
            assert_eq!(scene[pos..pos + 6], b"vector"[..]);
        }
        other => panic!("want an unknown-parameter-type failure, got {:?}", other),
    }
}

#[test]
fn test_malformed_numeric_literal() {
    assert_eq!(
        look_at(b"LookAt 1 2 x", 0),
        Err(Error::MalformedNumericLiteral)
    );
    // An integer list refuses a literal with a decimal point.
    assert_eq!(
        param_set_item(b"\"integer foo\" [1.5]", 0),
        Err(Error::MalformedNumericLiteral)
    );
}

#[test]
fn test_unterminated_quoted_string() {
    assert_eq!(
        param_set_item(b"\"string foo\" \"abc", 0),
        Err(Error::UnterminatedQuotedString)
    );
    let input: &[u8] = b"WorldBegin Material \"mir";
    assert_eq!(parse_scene(input), Err(Error::UnterminatedQuotedString));
}

#[test]
fn test_unexpected_token() {
    assert_eq!(
        param_set_item(b"\"float foo\" [1 2", 0),
        Err(Error::UnexpectedToken(b"]".to_vec(), 16))
    );
    let input: &[u8] = b"Shape \"sphere\"";
    assert_eq!(
        parse_scene(input),
        Err(Error::UnexpectedToken(b"WorldBegin".to_vec(), 0))
    );
}

#[test]
fn test_truncated_input() {
    let input: &[u8] = b"Integrator \"path\" WorldBeg";
    assert_eq!(parse_scene(input), Err(Error::TruncatedInput(2)));
    let input: &[u8] = b"WorldBegin Material \"mirror\" WorldE";
    assert_eq!(parse_scene(input), Err(Error::TruncatedInput(2)));
}

#[test]
fn test_empty_world_refused() {
    let input: &[u8] = b"Integrator \"path\" WorldBegin WorldEnd";
    assert_eq!(
        parse_scene(input),
        Err(Error::UnexpectedToken(b"world directive".to_vec(), 29))
    );
}

#[test]
fn test_trailing_content_refused() {
    let input: &[u8] = b"WorldBegin Material \"mirror\" WorldEnd junk";
    assert_eq!(
        parse_scene(input),
        Err(Error::UnexpectedToken(b"end of input".to_vec(), 38))
    );
}

#[test]
fn test_options_may_be_empty() {
    let input: &[u8] = b"WorldBegin Material \"mirror\" WorldEnd";
    let scene = parse_scene(input).expect("scene parses");
    assert_eq!(scene.options, vec![]);
    assert_eq!(scene.world_objects.len(), 1);
}

#[test]
fn test_param_set_last_write_wins() {
    let mut ps = ParamSet::new();
    ps.insert(ParamSetItem::new(b"a".to_vec(), Value::Int(vec![1])));
    ps.insert(ParamSetItem::new(b"b".to_vec(), Value::Int(vec![2])));
    ps.insert(ParamSetItem::new(b"a".to_vec(), Value::Int(vec![3])));
    // The repeated name keeps its first position but takes the last value.
    assert_eq!(ps.len(), 2);
    assert_eq!(ps.items[0].name, b"a".to_vec());
    assert_eq!(ps.items[0].value, Value::Int(vec![3]));
    assert_eq!(ps.items[1].name, b"b".to_vec());
    assert_eq!(ps.get(&b"a".to_vec()), Some(&Value::Int(vec![3])));
    assert_eq!(ps.get(&b"c".to_vec()), None);
}

#[test]
fn test_vector3() {
    let v = Vector3::new(1i64, 2i64, 3i64);
    assert_eq!(v, Vector3 { x: 1, y: 2, z: 3 });
    let v = Vector3::new(3i64, 4i64, 12i64);
    assert_eq!(v.length_squared(), 169);
    assert_eq!(v.length(), 13);
    let v = Vector3::new(30i64, -42i64, 5i64);
    // length_squared is 900 + 1764 + 25 = 2689, whose integer root is 51.
    assert_eq!(v.length(), 51);
    assert_eq!(v.normalize(), Vector3 { x: 0, y: 0, z: 0 });
    let v = Vector3::new(300i64, -42i64, 5i64);
    let len = v.length();
    assert_eq!(len, 302);
    assert_eq!(v.normalize(), Vector3 { x: 300 / 302, y: -42 / 302, z: 5 / 302 });
}

#[test]
fn test_sqrt() {
    assert_eq!(0i64.sqrt(), 0);
    assert_eq!(1i64.sqrt(), 1);
    assert_eq!(10i64.sqrt(), 3);
    assert_eq!(25i64.sqrt(), 5);
    assert_eq!(i64::MAX.sqrt(), 3037000499);
}
