//! The grammar written down a second time, with parser combinators, and
//! held against the library on many inputs.

use std::collections::HashMap;

use nom::{
    branch::alt,
    bytes::complete::{is_a, is_not, tag, take_while},
    combinator::{eof, iterator, opt},
    multi::{many0, many1},
    sequence::{delimited, preceded},
    IResult,
};
use valve_map::from_str;

#[derive(Debug, Clone, PartialEq)]
struct Side {
    triangle: [[f32; 3]; 3],
    texture_name: String,
    axis_u: [f32; 3],
    axis_v: [f32; 3],
    offset: [f32; 2],
    rotation: f32,
    scale: [f32; 2],
}

#[derive(Debug, Clone, PartialEq)]
struct Thing {
    properties: HashMap<String, String>,
    brushes: Vec<Vec<Side>>,
}

fn number(i: &str) -> IResult<&str, f32> {
    let (i, o) = take_while(|c: char| c.is_numeric() || c == '-' || c == '.' || c == 'e')(i)?;
    Ok((
        i,
        o.parse::<f32>()
            .map_err(|_| nom::Err::Error(nom::error::make_error(i, nom::error::ErrorKind::Fail)))?,
    ))
}

fn name(i: &str) -> IResult<&str, &str> {
    is_not(" \t\r\n")(i)
}

fn quoted(i: &str) -> IResult<&str, &str> {
    let (i, _) = nom::character::complete::char('"')(i)?;
    let (i, o) = is_not("\"")(i)?;
    let (i, _) = nom::character::complete::char('"')(i)?;
    Ok((i, o))
}

fn remark(i: &str) -> IResult<&str, &str> {
    let (i, _) = alt((tag("// "), tag("//")))(i)?;
    let (i, o) = alt((is_not("\r\n"), eof))(i)?;
    let (i, _) = alt((tag("\r\n"), tag("\n"), eof))(i)?;
    Ok((i, o))
}

fn between(i: &str) -> IResult<&str, Vec<&str>> {
    many0(alt((remark, is_a(" \t\r\n"))))(i)
}

fn pair(i: &str) -> IResult<&str, (&str, &str)> {
    let (i, key) = quoted(i)?;
    let (i, _) = nom::character::complete::char(' ')(i)?;
    let (i, val) = quoted(i)?;
    Ok((i, (key, val)))
}

fn space(i: &str) -> IResult<&str, char> {
    nom::character::streaming::char(' ')(i)
}

fn three(i: &str) -> IResult<&str, [f32; 3]> {
    let (i, x) = number(i)?;
    let (i, _) = space(i)?;
    let (i, y) = number(i)?;
    let (i, _) = space(i)?;
    let (i, z) = number(i)?;
    Ok((i, [x, y, z]))
}

fn points(i: &str) -> IResult<&str, [[f32; 3]; 3]> {
    let (i, _) = tag("( ")(i)?;
    let (i, a) = three(i)?;
    let (i, _) = tag(" ) ( ")(i)?;
    let (i, b) = three(i)?;
    let (i, _) = tag(" ) ( ")(i)?;
    let (i, c) = three(i)?;
    let (i, _) = tag(" )")(i)?;
    Ok((i, [a, b, c]))
}

fn side(i: &str) -> IResult<&str, Side> {
    let (i, triangle) = points(i)?;
    let (i, _) = space(i)?;
    let (i, texture_name) = name(i)?;
    let (i, _) = tag(" [ ")(i)?;
    let (i, axis_u) = three(i)?;
    let (i, _) = space(i)?;
    let (i, offset_x) = number(i)?;
    let (i, _) = tag(" ] [ ")(i)?;
    let (i, axis_v) = three(i)?;
    let (i, _) = space(i)?;
    let (i, offset_y) = number(i)?;
    let (i, _) = tag(" ] ")(i)?;
    let (i, rotation) = number(i)?;
    let (i, _) = space(i)?;
    let (i, scale_x) = number(i)?;
    let (i, _) = space(i)?;
    let (i, scale_y) = number(i)?;
    Ok((
        i,
        Side {
            triangle,
            texture_name: texture_name.to_string(),
            axis_u,
            axis_v,
            offset: [offset_x, offset_y],
            rotation,
            scale: [scale_x, scale_y],
        },
    ))
}

fn solid(i: &str) -> IResult<&str, Vec<Side>> {
    let (i, _) = nom::character::streaming::char('{')(i)?;
    let (i, sides) = many1(delimited(between, side, between))(i)?;
    let (i, _) = nom::character::streaming::char('}')(i)?;
    Ok((i, sides))
}

fn thing(i: &str) -> IResult<&str, Thing> {
    let (i, _) = nom::character::streaming::char('{')(i)?;
    let (i, pairs) = opt(many1(delimited(between, pair, between)))(i)?;
    let (i, brushes) = opt(many1(delimited(between, solid, between)))(i)?;
    let (i, _) = nom::character::streaming::char('}')(i)?;
    let mut properties = HashMap::new();
    for (k, v) in pairs.unwrap_or_default() {
        properties.insert(k.to_string(), v.to_string());
    }
    Ok((
        i,
        Thing {
            properties,
            brushes: brushes.unwrap_or_default(),
        },
    ))
}

fn things(i: &str) -> Vec<Thing> {
    let mut all = iterator(i, preceded(between, thing));
    all.collect()
}

fn value(number: &valve_map::Number) -> f32 {
    number.text.parse().unwrap()
}

fn values3(v: &[valve_map::Number; 3]) -> [f32; 3] {
    [value(&v[0]), value(&v[1]), value(&v[2])]
}

fn read(text: &str) -> Vec<Thing> {
    from_str(text)
        .unwrap()
        .entities
        .iter()
        .map(|e| Thing {
            properties: e.properties.pairs().iter().cloned().collect(),
            brushes: e
                .brushes
                .iter()
                .map(|b| {
                    b.faces
                        .iter()
                        .map(|f| Side {
                            triangle: [
                                values3(&f.triangle[0]),
                                values3(&f.triangle[1]),
                                values3(&f.triangle[2]),
                            ],
                            texture_name: f.texture_name.clone(),
                            axis_u: values3(&f.axis_u),
                            axis_v: values3(&f.axis_v),
                            offset: [value(&f.offset[0]), value(&f.offset[1])],
                            rotation: value(&f.rotation),
                            scale: [value(&f.scale[0]), value(&f.scale[1])],
                        })
                        .collect()
                })
                .collect(),
        })
        .collect()
}

/// The text holds something that the library reads and the combinators do
/// not: a sign `+`, a comment without text before the end of its line, or
/// an entity with nothing in it but what is ignored.
fn goes_beyond(text: &str) -> bool {
    let chars: Vec<char> = text.chars().collect();
    let blank = |c: char| c == ' ' || c == '\t' || c == '\r' || c == '\n';
    for (i, c) in chars.iter().enumerate() {
        if *c == '+' {
            return true;
        }
        if *c == '/' && chars.get(i + 1) == Some(&'/') {
            let mut j = i + 2;
            if chars.get(j) == Some(&' ') {
                j += 1;
            }
            if matches!(chars.get(j), Some('\r') | Some('\n')) {
                return true;
            }
        }
        if *c == '{' {
            let mut j = i + 1;
            while j < chars.len() && (blank(chars[j]) || chars[j] == '/') {
                if chars[j] == '/' {
                    while j < chars.len() && chars[j] != '\n' {
                        j += 1;
                    }
                } else {
                    j += 1;
                }
            }
            if j > i + 1 && chars.get(j) == Some(&'}') {
                return true;
            }
        }
    }
    false
}

fn hold_against(text: &str) {
    let theirs = things(text);
    let ours = read(text);
    assert!(ours.len() >= theirs.len(), "{:?}", text);
    assert_eq!(ours[..theirs.len()], theirs[..], "{:?}", text);
    if !goes_beyond(text) {
        assert_eq!(ours, theirs, "{:?}", text);
    }
}

const SAMPLE: &str = r#"// Game: Eternal Combat
// Format: Valve
// entity 0
{
"mapversion" "220"
"classname" "worldspawn"
// brush 0
{
( -16 -64 -16 ) ( -16 -63 -16 ) ( -16 -64 -15 ) __TB_empty [ 0 -1 0 -0 ] [ 0 0 -1 -0 ] -0 1 1
( -64 -16 -16 ) ( -64 -16 -15 ) ( -63 -16 -16 ) __TB_empty [ 1 0 0 -0 ] [ 0 0 -1 -0 ] -0 1 1
( 64 64 16 ) ( 64 65 16 ) ( 65 64 16 ) stone/a [ 1 0 0 0.5 ] [ 0 -1 0 1e-3 ] 45 .5 2.

}
{ ( 1 2 3 ) ( 4 5 6 ) ( 7 8 9 ) x [ 1 0 0 0 ] [ 0 1 0 0 ] 0 1 1 }
}
// entity 1
{
    "spawnflags" "0"
    "classname" "info_player_start" // the start
    "origin" "32 32 24"
    "classname" "other"
}
{}
{
"only" "this"}
"#;

#[test]
fn reads_the_sample_as_the_combinators_do() {
    let ours = read(SAMPLE);
    assert_eq!(ours.len(), 4);
    assert_eq!(ours[0].brushes.len(), 2);
    assert_eq!(ours[0].brushes[0].len(), 3);
    assert_eq!(ours[0].brushes[0][2].scale, [0.5, 2.0]);
    assert_eq!(ours[1].properties["classname"], "other");
    hold_against(SAMPLE);
}

#[test]
fn reads_edge_cases_as_the_combinators_do() {
    for text in [
        "",
        " ",
        "{",
        "}",
        "{}",
        "{}{}",
        "{} x {}",
        "{\"a\" \"b\"}",
        "{\"a\" \"b\"",
        "{\"a\" \"b\" ",
        "{\"a\"  \"b\"}",
        "{\"a\" \"\"}",
        "{\"\" \"b\"}",
        "{\"a\" \"b\"\"c\" \"d\"}",
        "{\"a\" \"b\" \"c\" \"d\"}",
        "{ \"a\" \"b\" { } }",
        "{ \"a\" \"b\" {",
        "{ { ( 1 2 3 ) ( 4 5 6 ) ( 7 8 9 ) x [ 1 0 0 0 ] [ 0 1 0 0 ] 0 1 1 } }",
        "{ { ( 1 2 3 ) ( 4 5 6 ) ( 7 8 9 ) x [ 1 0 0 0 ] [ 0 1 0 0 ] 0 1 1",
        "{ { ( 1 2 3 ) ( 4 5 6 ) ( 7 8 9 ) x [ 1 0 0 0 ] [ 0 1 0 0 ] 0 1 ",
        "{ { ( 1 2 3 ) ( 4 5 6 ) ( 7 8 9 ) x [ 1 0 0 0 ] [ 0 1 0 0 ] 0 1 1 } \"late\" \"x\" }",
        "{ { ( 1 2 3 ) ( 4 5 6 ) ( 7 8 9 ) x [ 1 0 0 0 ] [ 0 1 0 0 ] 0 1 1} }",
        "{ { ( 1 2 3 ) ( 4 5 6 ) ( 7 8 9 ) x [ 1 0 0 0 ] [ 0 1 0 0 ] 0 1 1- } }",
        "{ { ( 1 2 3 ) ( 4 5 6 ) ( 7 8 9 ) x [ 1 0 0 0 ] [ 0 1 0 0 ] 0 1 1e } }",
        "{ { ( 1 2 3 ) ( 4 5 6 ) ( 7 8 9 ) x [ 1 0 0 0 ] [ 0 1 0 0 ] 0 1 1\u{663} } }",
        "{ { ( 1 2 3 ) ( 4 5 6 ) ( 7 8 9 ) x [ 1 0 0 0 ] [ 0 1 0 0 ] 0 1 \u{663} } }",
        "{ { ( 1 2 3 ) ( 4 5 6 ) ( 7 8 9 ) \u{e9}\u{4e16} [ 1 0 0 0 ] [ 0 1 0 0 ] 0 1 1 } }",
        "{ { ( 1 2 3 ) ( 4 5 6 ) ( 7 8 9 )  x [ 1 0 0 0 ] [ 0 1 0 0 ] 0 1 1 } }",
        "{ { (1 2 3 ) ( 4 5 6 ) ( 7 8 9 ) x [ 1 0 0 0 ] [ 0 1 0 0 ] 0 1 1 } }",
        "{ { ( 1 2 3 ) ( 4 5 6 ) ( 7 8 9 ) x [ 1 0 0 0 ][ 0 1 0 0 ] 0 1 1 } }",
        "{ { ( 1e2 -.5 3. ) ( 4e-1 5 6 ) ( 7 8 9 ) x [ 1 0 0 0 ] [ 0 1 0 0 ] 0 1 1 } }",
        "{ { ( 1e2 . 3. ) ( 4e-1 5 6 ) ( 7 8 9 ) x [ 1 0 0 0 ] [ 0 1 0 0 ] 0 1 1 } }",
        "{ { ( 1 2 3 ) ( 4 5 6 ) ( 7 8 9 ) // [ 1 0 0 0 ] [ 0 1 0 0 ] 0 1 1 } }",
        "// a\n{}// b\r\n{}// c\r{}",
        "// a",
        "//",
        "// ",
        "/ {}",
        "\t\r\n{}\n",
        "{// in\n\"a\" \"b\"// after\n}",
        "{ \"a\" \"b\" // c }",
        "{ \"a\" \"b\" // c }\n}",
        "\u{feff}{}",
        "{}\u{e9}{}",
    ] {
        hold_against(text);
    }
}

#[test]
fn goes_beyond_the_combinators_in_three_ways() {
    for (text, entities) in [
        ("{ }", 1),
        ("{\n// nothing\n}", 1),
        ("//\n{}", 1),
        ("// \n{}", 1),
        ("{ \"a\" \"b\" //\n}", 1),
        (
            "{ { ( 1 2 3 ) ( 4 5 6 ) ( 7 8 9 ) x [ 1 0 0 0 ] [ 0 1 0 0 ] 0 1 1e+1 } }",
            1,
        ),
    ] {
        assert!(goes_beyond(text));
        assert_eq!(things(text).len(), 0, "{:?}", text);
        assert_eq!(read(text).len(), entities, "{:?}", text);
        hold_against(text);
    }
}

struct Dice(u64);

impl Dice {
    fn roll(&mut self, sides: usize) -> usize {
        self.0 = self
            .0
            .wrapping_mul(6364136223846793005)
            .wrapping_add(1442695040888963407);
        ((self.0 >> 33) as usize) % sides
    }
}

#[test]
fn reads_spoiled_samples_as_the_combinators_do() {
    let sample: Vec<char> = SAMPLE.chars().collect();
    let letters: Vec<char> = "{}()[]\"/ \n\r\t-.e0123456789ax\u{663}".chars().collect();
    let mut dice = Dice(2024);
    for _ in 0..4000 {
        let mut text = sample.clone();
        for _ in 0..1 + dice.roll(3) {
            let at = dice.roll(text.len());
            match dice.roll(3) {
                0 => {
                    text.remove(at);
                }
                1 => text.insert(at, letters[dice.roll(letters.len())]),
                _ => text[at] = letters[dice.roll(letters.len())],
            }
        }
        let text: String = text.into_iter().collect();
        hold_against(&text);
    }
}
