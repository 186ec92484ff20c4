//! Tests of the recognizers, mirroring the grammar component by component.

use pbrt::geometry::Point3;
use pbrt::paramset::{Number, ParamSet, ParamSetItem, Value};
use pbrt::parser::{
    attribute, boolean, camera, film, integer, integrator, light_source, look_at, material,
    number, param_set, param_set_item, param_set_item_values_float, param_set_item_values_integer,
    param_set_item_values_point, param_set_item_values_string, param_set_item_values_texture,
    parse_scene, sampler, shape, strip_comment, translate, OptionsBlock, Scene, WorldBlock,
};

/// Parse a whole string as one numeric literal.
fn num(s: &str) -> Number {
    let b = s.as_bytes();
    let (p, n) = number(b, 0).expect("numeric literal");
    assert_eq!(p, b.len(), "whole literal consumed: {}", s);
    n
}

/// The written form of a parsed numeric literal.
fn num_text(n: &Number) -> String {
    let mut t = String::new();
    if n.neg {
        t.push('-');
    }
    for d in &n.whole {
        t.push(*d as char);
    }
    if n.point {
        t.push('.');
    }
    for d in &n.frac {
        t.push(*d as char);
    }
    if let Some(e) = &n.exp {
        t.push('e');
        if e.neg {
            t.push('-');
        }
        for d in &e.digits {
            t.push(*d as char);
        }
    }
    t
}

/// The numeric value of a parsed literal, for comparing against floats.
fn num_f64(n: &Number) -> f64 {
    num_text(n).parse().expect("numeric value")
}

fn bv(s: &str) -> Vec<u8> {
    s.as_bytes().to_vec()
}

fn nums(xs: &[&str]) -> Vec<Number> {
    xs.iter().map(|s| num(s)).collect()
}

fn item(name: &str, v: Value) -> ParamSetItem {
    ParamSetItem::new(bv(name), v)
}

fn ps(items: Vec<ParamSetItem>) -> ParamSet {
    ParamSet::from_items(items)
}

#[test]
fn test_strip_comment() {
    assert_eq!(
        strip_comment(b"a # comment\nb # comment\n"),
        b"a \nb \n".to_vec()
    );
    assert_eq!(strip_comment(b"a # comment\nb\n"), b"a \nb\n".to_vec());
    assert_eq!(strip_comment(b"a\nb\n"), b"a\nb\n".to_vec());
    assert_eq!(strip_comment(b"a\nb # comment\n"), b"a\nb \n".to_vec());
}

#[test]
fn test_number() {
    let cases: &[(&str, f64)] = &[("3.14", 3.14), (".1", 0.1), ("0.2", 0.2), ("3.", 3.), ("4", 4.)];
    for (text, want) in cases {
        let b = text.as_bytes();
        let (p, n) = number(b, 0).expect("numeric literal");
        assert_eq!(p, b.len(), "whole of {:?} consumed", text);
        assert_eq!(num_f64(&n), *want);
    }
}

#[test]
fn test_number_parts() {
    let n = num("3.14");
    assert!(!n.neg);
    assert_eq!(n.whole, b"3".to_vec());
    assert!(n.point);
    assert_eq!(n.frac, b"14".to_vec());
    assert!(n.exp.is_none());

    let n = num("-4e+2");
    assert!(n.neg);
    assert_eq!(n.whole, b"4".to_vec());
    assert!(!n.point);
    let e = n.exp.expect("exponent");
    assert!(!e.neg);
    assert_eq!(e.digits, b"2".to_vec());
}

#[test]
fn test_number_rejected() {
    assert_eq!(number(b".", 0), None);
    assert_eq!(number(b"e5", 0), None);
    assert_eq!(number(b"-", 0), None);
    // A bare exponent marker ends the literal before the marker.
    assert_eq!(number(b"3e", 0), Some((1, num("3"))));
}

#[test]
fn test_integer() {
    assert_eq!(integer(b"-1", 0), Some((2, -1)));
    assert_eq!(integer(b"400", 0), Some((3, 400)));
    assert_eq!(integer(b"+7", 0), Some((2, 7)));
    // A decimal point rejects the integer reading.
    assert_eq!(integer(b"1.5", 0), None);
    assert_eq!(integer(b"x", 0), None);
    assert_eq!(integer(b"9223372036854775807", 0), Some((19, i64::MAX)));
    assert_eq!(integer(b"-9223372036854775808", 0), Some((20, i64::MIN)));
    assert_eq!(integer(b"9223372036854775808", 0), None);
    assert_eq!(integer(b"99999999999999999999999999", 0), None);
}

#[test]
fn test_boolean() {
    assert_eq!(boolean(b"true", 0), Some((4, true)));
    assert_eq!(boolean(b"false", 0), Some((5, false)));
    assert_eq!(boolean(b"truth", 0), None);
}

#[test]
fn test_number_comment_number() {
    let stripped = strip_comment(b"[ 1 # comment\n2 3]\n");
    let (p, v) = param_set_item_values_float(&stripped, 0).expect("float values");
    assert_eq!(p, stripped.len());
    assert_eq!(v, Value::Float(nums(&["1", "2", "3"])));
}

#[test]
fn test_param_set_item_values_point() {
    let input = b"[.1 .2 .3  .4 .5 .6]\n";
    let (p, v) = param_set_item_values_point(input, 0).expect("point values");
    assert_eq!(p, input.len());
    assert_eq!(
        v,
        Value::Point3f(vec![
            Point3 { x: num(".1"), y: num(".2"), z: num(".3") },
            Point3 { x: num(".4"), y: num(".5"), z: num(".6") },
        ])
    );
}

#[test]
fn test_param_set_item_values_float() {
    let input = b"[.4 .45 .5]\n";
    let (p, v) = param_set_item_values_float(input, 0).expect("float values");
    assert_eq!(p, input.len());
    assert_eq!(v, Value::Float(nums(&[".4", ".45", ".5"])));

    let input = b"1 2. -3.0";
    let (p, v) = param_set_item_values_float(input, 0).expect("float values");
    assert_eq!(p, input.len());
    assert_eq!(v, Value::Float(nums(&["1", "2.", "-3.0"])));

    let input = b"[  1 2 3]";
    let (p, v) = param_set_item_values_float(input, 0).expect("float values");
    assert_eq!(p, input.len());
    assert_eq!(v, Value::Float(nums(&["1", "2", "3"])));
}

#[test]
fn test_param_set_item_values_integer() {
    let input = b"[-1 2 3]\n";
    let (p, v) = param_set_item_values_integer(input, 0).expect("integer values");
    assert_eq!(p, input.len());
    assert_eq!(v, Value::Int(vec![-1, 2, 3]));

    let input = b"[400]\n";
    let (p, v) = param_set_item_values_integer(input, 0).expect("integer values");
    assert_eq!(p, input.len());
    assert_eq!(v, Value::Int(vec![400]));
}

#[test]
fn test_param_set_item_values_string() {
    let input = b"[\"foo\"]\n";
    let (p, v) = param_set_item_values_string(input, 0).expect("string values");
    assert_eq!(p, input.len());
    assert_eq!(v, Value::Str(vec![bv("foo")]));

    let input = b"\"foo\"\n";
    let (p, v) = param_set_item_values_string(input, 0).expect("string values");
    assert_eq!(p, input.len());
    assert_eq!(v, Value::Str(vec![bv("foo")]));
}

#[test]
fn test_param_set_item_values_texture() {
    let input = b"[\"foo\"]\n";
    let (p, v) = param_set_item_values_texture(input, 0).expect("texture values");
    assert_eq!(p, input.len());
    assert_eq!(v, Value::Texture(vec![bv("foo")]));

    let input = b"\"foo\"\n";
    let (p, v) = param_set_item_values_texture(input, 0).expect("texture values");
    assert_eq!(p, input.len());
    assert_eq!(v, Value::Texture(vec![bv("foo")]));
}

#[test]
fn test_param_set_item_float() {
    let input = b"\"float foo\" [ 0 1 2 ]";
    let (p, it) = param_set_item(input, 0)
        .expect("no parse failure")
        .expect("one item");
    assert_eq!(p, input.len());
    assert_eq!(it, item("foo", Value::Float(nums(&["0", "1", "2"]))));
}

#[test]
fn test_param_set_item_integer() {
    let input = b"\"integer foo\" [400]";
    let (p, it) = param_set_item(input, 0)
        .expect("no parse failure")
        .expect("one item");
    assert_eq!(p, input.len());
    assert_eq!(it, item("foo", Value::Int(vec![400])));

    // A bare scalar normalizes to the same one-element list.
    let bare = b"\"integer foo\" 400";
    let (p, bare_it) = param_set_item(bare, 0)
        .expect("no parse failure")
        .expect("one item");
    assert_eq!(p, bare.len());
    assert_eq!(bare_it, it);
}

#[test]
fn test_param_set_item_bool() {
    let input = b"\"bool foo\" [true false true false]";
    let (p, it) = param_set_item(input, 0)
        .expect("no parse failure")
        .expect("one item");
    assert_eq!(p, input.len());
    assert_eq!(it, item("foo", Value::Bool(vec![true, false, true, false])));
}

#[test]
fn test_param_set_item_multi() {
    let input = b"\"bool foo\" [true false true false]\n\"integer bar\" [ 0 1 2 ]\n";
    let (p, items) = param_set(input, 0).expect("no parse failure");
    assert_eq!(p, input.len());
    assert_eq!(
        items,
        vec![
            item("foo", Value::Bool(vec![true, false, true, false])),
            item("bar", Value::Int(vec![0, 1, 2])),
        ]
    );

    let input = b"\"integer xresolution\" [400] \"integer yresolution\" [200]\n\"string filename\" \"simple.png\"\n";
    let (p, items) = param_set(input, 0).expect("no parse failure");
    assert_eq!(p, input.len());
    assert_eq!(
        items,
        vec![
            item("xresolution", Value::Int(vec![400])),
            item("yresolution", Value::Int(vec![200])),
            item("filename", Value::Str(vec![bv("simple.png")])),
        ]
    );

    let input = b"\"string filename\" \"simple.png\"\n\"integer xresolution\" [400] \"integer yresolution\" [200]";
    let (p, items) = param_set(input, 0).expect("no parse failure");
    assert_eq!(p, input.len());
    assert_eq!(
        items,
        vec![
            item("filename", Value::Str(vec![bv("simple.png")])),
            item("xresolution", Value::Int(vec![400])),
            item("yresolution", Value::Int(vec![200])),
        ]
    );
}

#[test]
fn test_look_at() {
    let input = strip_comment(b"LookAt 3 4 1.5  # eye\n.5 .5 0  # look at point\n0 0 1    # up vector\n");
    let (p, b) = look_at(&input, 0).expect("look_at");
    assert_eq!(p, input.len());
    assert_eq!(
        b,
        OptionsBlock::LookAt(
            num("3"),
            num("4"),
            num("1.5"),
            num(".5"),
            num(".5"),
            num("0"),
            num("0"),
            num("0"),
            num("1"),
        )
    );
}

#[test]
fn test_camera() {
    let input = strip_comment(b"Camera \"perspective\" \"float fov\" 45");
    let (p, b) = camera(&input, 0).expect("camera");
    assert_eq!(p, input.len());
    assert_eq!(
        b,
        OptionsBlock::Camera(
            bv("perspective"),
            ps(vec![item("fov", Value::Float(nums(&["45"])))]),
        )
    );
}

#[test]
fn test_sampler() {
    let input = strip_comment(b"Sampler \"halton\" \"integer pixelsamples\" 128");
    let (p, b) = sampler(&input, 0).expect("sampler");
    assert_eq!(p, input.len());
    assert_eq!(
        b,
        OptionsBlock::Sampler(
            bv("halton"),
            ps(vec![item("pixelsamples", Value::Int(vec![128]))]),
        )
    );
}

#[test]
fn test_integrator() {
    let input = strip_comment(b"Integrator \"path\"");
    let (p, b) = integrator(&input, 0).expect("integrator");
    assert_eq!(p, input.len());
    assert_eq!(b, OptionsBlock::Integrator(bv("path"), ps(vec![])));
}

#[test]
fn test_film() {
    let input = b"Film \"image\" \"string filename\" \"simple.png\"\n\"integer xresolution\" [400] \"integer yresolution\" [200]";
    let (p, b) = film(input, 0).expect("film");
    assert_eq!(p, input.len());
    assert_eq!(
        b,
        OptionsBlock::Film(
            bv("image"),
            ps(vec![
                item("filename", Value::Str(vec![bv("simple.png")])),
                item("xresolution", Value::Int(vec![400])),
                item("yresolution", Value::Int(vec![200])),
            ]),
        )
    );
}

#[test]
fn test_attribute() {
    let input = b"AttributeBegin\n  LightSource \"infinite\" \"rgb L\" [.4 .45 .5]\nAttributeEnd";
    let (p, w) = attribute(input, 0).expect("attribute");
    assert_eq!(p, input.len());
    assert_eq!(
        w,
        WorldBlock::Attribute(vec![WorldBlock::LightSource(
            bv("infinite"),
            ps(vec![item("L", Value::RGB(nums(&[".4", ".45", ".5"])))]),
        )])
    );

    let input = b"AttributeBegin\n  Material \"mirror\"\nAttributeEnd";
    let (p, w) = attribute(input, 0).expect("attribute");
    assert_eq!(p, input.len());
    assert_eq!(
        w,
        WorldBlock::Attribute(vec![WorldBlock::Material(bv("mirror"), ps(vec![]))])
    );

    let input = b"AttributeBegin\n  Shape \"sphere\" \"float radius\" 1\nAttributeEnd";
    let (p, w) = attribute(input, 0).expect("attribute");
    assert_eq!(p, input.len());
    assert_eq!(
        w,
        WorldBlock::Attribute(vec![WorldBlock::Shape(
            bv("sphere"),
            ps(vec![item("radius", Value::Float(nums(&["1"])))]),
        )])
    );

    let input = b"AttributeBegin\n  Material \"mirror\"\n  Shape \"sphere\" \"float radius\" 1\nAttributeEnd";
    let (p, w) = attribute(input, 0).expect("attribute");
    assert_eq!(p, input.len());
    assert_eq!(
        w,
        WorldBlock::Attribute(vec![
            WorldBlock::Material(bv("mirror"), ps(vec![])),
            WorldBlock::Shape(
                bv("sphere"),
                ps(vec![item("radius", Value::Float(nums(&["1"])))]),
            ),
        ])
    );
}

#[test]
fn test_light_source() {
    let input = b"LightSource \"infinite\" \"rgb L\" [.4 .45 .5]";
    let (p, w) = light_source(input, 0).expect("light_source");
    assert_eq!(p, input.len());
    assert_eq!(
        w,
        WorldBlock::LightSource(
            bv("infinite"),
            ps(vec![item("L", Value::RGB(nums(&[".4", ".45", ".5"])))]),
        )
    );
}

#[test]
fn test_material() {
    let input = b"Material \"mirror\"";
    let (p, w) = material(input, 0).expect("material");
    assert_eq!(p, input.len());
    assert_eq!(w, WorldBlock::Material(bv("mirror"), ps(vec![])));
}

#[test]
fn test_shape() {
    let input = b"Shape \"sphere\" \"float radius\" 1";
    let (p, w) = shape(input, 0).expect("shape");
    assert_eq!(p, input.len());
    assert_eq!(
        w,
        WorldBlock::Shape(
            bv("sphere"),
            ps(vec![item("radius", Value::Float(nums(&["1"])))]),
        )
    );
}

#[test]
fn test_translate() {
    let input = b"Translate 0 0 -1";
    let (p, w) = translate(input, 0).expect("translate");
    assert_eq!(p, input.len());
    assert_eq!(w, WorldBlock::Translate(num("0"), num("0"), num("-1")));
}

#[test]
fn test_texture_directive() {
    let input = b"Texture \"checks\" \"spectrum\" \"checkerboard\" \"float uscale\" [8]";
    let (p, w) = pbrt::parser::texture(input, 0).expect("texture");
    assert_eq!(p, input.len());
    assert_eq!(
        w,
        WorldBlock::Texture(
            bv("checks"),
            bv("spectrum"),
            bv("checkerboard"),
            ps(vec![item("uscale", Value::Float(nums(&["8"])))]),
        )
    );
}

#[test]
fn test_parse_scene() {
    let input: &[u8] = b"LookAt 3 4 1.5  # eye\n\
.5 .5 0  # look at point\n\
0 0 1    # up vector\n\
Camera \"perspective\" \"float fov\" 45\n\
Sampler \"halton\" \"integer pixelsamples\" 128\n\
Integrator \"path\"\n\
Film \"image\" \"string filename\" \"simple.png\"\n\
     \"integer xresolution\" [400] \"integer yresolution\" [300]\n\
\n\
WorldBegin\n\
\n\
# uniform blue-ish illumination from all directions\n\
LightSource \"infinite\" \"rgb L\" [.4 .45 .5]\n\
\n\
# approximate the sun\n\
LightSource \"distant\"  \"point from\" [ -30 40  100 ]\n\
   \"blackbody L\" [3000 1.5]\n\
\n\
AttributeBegin\n\
  Material \"mirror\"\n\
  Shape \"sphere\" \"float radius\" 1\n\
AttributeEnd\n\
\n\
AttributeBegin\n\
  Texture \"checks\" \"spectrum\" \"checkerboard\"\n\
          \"float uscale\" [8] \"float vscale\" [8]\n\
          \"rgb tex1\" [.1 .1 .1] \"rgb tex2\" [.8 .8 .8]\n\
  Material \"matte\" \"texture Kd\" \"checks\"\n\
  Translate 0 0 -1\n\
  Shape \"trianglemesh\"\n\
      \"integer indices\" [0 1 2 0 2 3]\n\
      \"point P\" [ -20 -20 0   20 -20 0   20 20 0   -20 20 0 ]\n\
      \"float st\" [ 0 0   1 0    1 1   0 1 ]\n\
AttributeEnd\n\
\n\
WorldEnd\n";
    let got = parse_scene(input).expect("scene parses");
    let want = Scene {
        options: vec![
            OptionsBlock::LookAt(
                num("3"),
                num("4"),
                num("1.5"),
                num(".5"),
                num(".5"),
                num("0"),
                num("0"),
                num("0"),
                num("1"),
            ),
            OptionsBlock::Camera(
                bv("perspective"),
                ps(vec![item("fov", Value::Float(nums(&["45"])))]),
            ),
            OptionsBlock::Sampler(
                bv("halton"),
                ps(vec![item("pixelsamples", Value::Int(vec![128]))]),
            ),
            OptionsBlock::Integrator(bv("path"), ps(vec![])),
            OptionsBlock::Film(
                bv("image"),
                ps(vec![
                    item("filename", Value::Str(vec![bv("simple.png")])),
                    item("xresolution", Value::Int(vec![400])),
                    item("yresolution", Value::Int(vec![300])),
                ]),
            ),
        ],
        world_objects: vec![
            WorldBlock::LightSource(
                bv("infinite"),
                ps(vec![item("L", Value::RGB(nums(&[".4", ".45", ".5"])))]),
            ),
            WorldBlock::LightSource(
                bv("distant"),
                ps(vec![
                    item(
                        "from",
                        Value::Point3f(vec![Point3 {
                            x: num("-30"),
                            y: num("40"),
                            z: num("100"),
                        }]),
                    ),
                    item("L", Value::Blackbody(nums(&["3000", "1.5"]))),
                ]),
            ),
            WorldBlock::Attribute(vec![
                WorldBlock::Material(bv("mirror"), ps(vec![])),
                WorldBlock::Shape(
                    bv("sphere"),
                    ps(vec![item("radius", Value::Float(nums(&["1"])))]),
                ),
            ]),
            WorldBlock::Attribute(vec![
                WorldBlock::Texture(
                    bv("checks"),
                    bv("spectrum"),
                    bv("checkerboard"),
                    ps(vec![
                        item("uscale", Value::Float(nums(&["8"]))),
                        item("vscale", Value::Float(nums(&["8"]))),
                        item("tex1", Value::RGB(nums(&[".1", ".1", ".1"]))),
                        item("tex2", Value::RGB(nums(&[".8", ".8", ".8"]))),
                    ]),
                ),
                WorldBlock::Material(
                    bv("matte"),
                    ps(vec![item("Kd", Value::Texture(vec![bv("checks")]))]),
                ),
                WorldBlock::Translate(num("0"), num("0"), num("-1")),
                WorldBlock::Shape(
                    bv("trianglemesh"),
                    ps(vec![
                        item("indices", Value::Int(vec![0, 1, 2, 0, 2, 3])),
                        item(
                            "P",
                            Value::Point3f(vec![
                                Point3 { x: num("-20"), y: num("-20"), z: num("0") },
                                Point3 { x: num("20"), y: num("-20"), z: num("0") },
                                Point3 { x: num("20"), y: num("20"), z: num("0") },
                                Point3 { x: num("-20"), y: num("20"), z: num("0") },
                            ]),
                        ),
                        item(
                            "st",
                            Value::Float(nums(&["0", "0", "1", "0", "1", "1", "0", "1"])),
                        ),
                    ]),
                ),
            ]),
        ],
    };
    assert_eq!(got, want);
}
