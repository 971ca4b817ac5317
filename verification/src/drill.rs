use vstd::prelude::*;

use std::collections::HashMap;

use crate::parser::line_end;
use crate::parser::lemma_digits_end_range;
use crate::parser::lemma_float_end_range;
use crate::parser::lemma_line_end_range;
use crate::parser::lemma_spec_expect_range;
use crate::parser::spec_expect;
use crate::parser::spec_parse_decimal;
use crate::parser::spec_parse_int;
use crate::parser::ParseError;
use crate::parser::Parser;
use crate::point::Point;

verus! {

broadcast use vstd::std_specs::hash::group_hash_axioms;

/// One tool of a drill file: its hole diameter and every recorded hit.
#[derive(Debug)]
pub struct DrillOperations {
    pub diameter: i64,
    pub holes: Vec<Point>,
}

/// The mathematical content of one tool's operations.
pub ghost struct DrillOpsView {
    pub diameter: i64,
    pub holes: Seq<Point>,
}

impl View for DrillOperations {
    type V = DrillOpsView;

    open spec fn view(&self) -> DrillOpsView {
        DrillOpsView { diameter: self.diameter, holes: self.holes@ }
    }
}

impl DrillOperations {
    fn new(diameter: i64) -> (r: Self)
        ensures
            r@ == (DrillOpsView { diameter, holes: Seq::empty() }),
    {
        let r = DrillOperations { diameter, holes: Vec::new() };
        proof {
            assert(r@.holes =~= Seq::<Point>::empty());
        }
        r
    }
}

/// A parsed drill file: the mapping from tool id to its operations, and the
/// tool ids in definition order.
#[derive(Debug)]
pub struct DrillFile {
    pub holes: HashMap<u32, DrillOperations>,
    pub tools: Vec<u32>,
}

/// The mathematical content of the tool mapping.
pub open spec fn holes_view(m: Map<u32, DrillOperations>) -> Map<u32, DrillOpsView> {
    m.map_values(|d: DrillOperations| d@)
}

/// The reader's accumulated result: the tool mapping and the definition
/// order of the tool ids.
pub ghost struct DrillSt {
    pub holes: Map<u32, DrillOpsView>,
    pub tools: Seq<u32>,
}

/// What the directive lines from position i onward yield, given the tools
/// collected and the tool selected so far: `T<id>C<d>` defines a tool,
/// `T<id>` selects one, `X<x>Y<y>` records a hit under the selected tool,
/// any other line is ignored, and every line is consumed to its newline.
pub open spec fn spec_drill(s: Seq<char>, i: int, st: DrillSt, selected: u32) -> Result<
    DrillSt,
    ParseError,
>
    decreases s.len() - i,
    via spec_drill_decreases
{
    if i < 0 || i >= s.len() {
        Ok(st)
    } else {
        let op = s[i];
        if op == 'T' {
            match spec_parse_int(s, i + 1) {
                (Err(e), _) => Err(e),
                (Ok(id), j2) => if j2 < s.len() && s[j2] == 'C' {
                    match spec_parse_decimal(s, j2 + 1) {
                        (Err(e), _) => Err(e),
                        (Ok(d), j4) => spec_drill(
                            s,
                            line_end(s, j4),
                            DrillSt {
                                holes: st.holes.insert(
                                    id,
                                    DrillOpsView { diameter: d, holes: Seq::empty() },
                                ),
                                tools: if st.holes.contains_key(id) {
                                    st.tools
                                } else {
                                    st.tools.push(id)
                                },
                            },
                            selected,
                        ),
                    }
                } else {
                    spec_drill(s, line_end(s, j2), st, id)
                },
            }
        } else if op == 'X' {
            match spec_parse_decimal(s, i + 1) {
                (Err(e), _) => Err(e),
                (Ok(x), j2) => match spec_expect(s, j2, seq!['Y']) {
                    (Err(e), _) => Err(e),
                    (Ok(_), j3) => match spec_parse_decimal(s, j3) {
                        (Err(e), _) => Err(e),
                        (Ok(y), j4) => if !st.holes.contains_key(selected) {
                            Err(ParseError::NoCurrentTool { at: i as usize })
                        } else {
                            let ops = st.holes[selected];
                            spec_drill(
                                s,
                                line_end(s, j4),
                                DrillSt {
                                    holes: st.holes.insert(
                                        selected,
                                        DrillOpsView {
                                            diameter: ops.diameter,
                                            holes: ops.holes.push(Point { x, y }),
                                        },
                                    ),
                                    tools: st.tools,
                                },
                                selected,
                            )
                        },
                    },
                },
            }
        } else {
            spec_drill(s, line_end(s, i + 1), st, selected)
        }
    }
}

#[via_fn]
proof fn spec_drill_decreases(s: Seq<char>, i: int, st: DrillSt, selected: u32) {
    if 0 <= i < s.len() {
        let op = s[i];
        if op == 'T' {
            lemma_digits_end_range(s, i + 1);
            let j2 = spec_parse_int(s, i + 1).1;
            if j2 < s.len() && s[j2] == 'C' {
                lemma_float_end_range(s, j2 + 1);
                let j4 = spec_parse_decimal(s, j2 + 1).1;
                lemma_line_end_range(s, j4);
            } else {
                lemma_line_end_range(s, j2);
            }
        } else if op == 'X' {
            lemma_float_end_range(s, i + 1);
            let j2 = spec_parse_decimal(s, i + 1).1;
            lemma_spec_expect_range(s, j2, seq!['Y']);
            let j3 = spec_expect(s, j2, seq!['Y']).1;
            lemma_float_end_range(s, j3);
            let j4 = spec_parse_decimal(s, j3).1;
            lemma_line_end_range(s, j4);
        } else {
            lemma_line_end_range(s, i + 1);
        }
    }
}

/// What parsing a whole drill file yields: the `M48` header, its line, then
/// the directive lines.
pub open spec fn spec_drill_file(s: Seq<char>) -> Result<DrillSt, ParseError> {
    match spec_expect(s, 0, seq!['M', '4', '8']) {
        (Err(e), _) => Err(e),
        (Ok(_), i1) => spec_drill(
            s,
            line_end(s, i1),
            DrillSt { holes: Map::empty(), tools: Seq::empty() },
            0u32,
        ),
    }
}

impl DrillFile {
    /// The mathematical content of this drill file.
    pub open spec fn view_st(self) -> DrillSt {
        DrillSt { holes: holes_view(self.holes@), tools: self.tools@ }
    }

    /// Parses a drill file: a mandatory `M48` header line, then directive
    /// lines as `spec_drill` describes. A failure reports the character
    /// index at which it was detected and aborts the whole read.
    pub fn parse(file: &str) -> (r: Result<Self, ParseError>)
        ensures
            match r {
                Ok(d) => spec_drill_file(file@) == Ok::<_, ParseError>(d.view_st()),
                Err(e) => spec_drill_file(file@) == Err::<DrillSt, _>(e),
            },
    {
        let ghost s = file@;
        let mut parser = Parser::new(file);
        proof {
            reveal_strlit("M48");
            assert("M48"@ =~= seq!['M', '4', '8']);
        }
        match parser.expect("M48") {
            Err(e) => {
                return Err(e);
            },
            Ok(_) => {},
        }
        parser.next_line();
        proof {
            lemma_spec_expect_range(s, 0, seq!['M', '4', '8']);
            lemma_line_end_range(s, spec_expect(s, 0, seq!['M', '4', '8']).1);
        }
        let mut holes: HashMap<u32, DrillOperations> = HashMap::new();
        let mut tools: Vec<u32> = Vec::new();
        let mut selected: u32 = 0;
        proof {
            assert(holes_view(holes@) =~= Map::<u32, DrillOpsView>::empty());
        }
        loop
            invariant
                parser.wf(),
                parser.chars@ == s,
                s == file@,
                vstd::std_specs::hash::obeys_key_model::<u32>(),
                spec_drill_file(s) == spec_drill(
                    s,
                    parser.idx as int,
                    DrillSt { holes: holes_view(holes@), tools: tools@ },
                    selected,
                ),
            ensures
                spec_drill_file(s) == spec_drill(
                    s,
                    parser.idx as int,
                    DrillSt { holes: holes_view(holes@), tools: tools@ },
                    selected,
                ),
                parser.idx >= s.len(),
            decreases s.len() - parser.idx,
        {
            if parser.is_eof() {
                break;
            }
            let line_start = parser.idx;
            let ghost st0 = DrillSt { holes: holes_view(holes@), tools: tools@ };
            let op = parser.next();
            if op == 'T' {
                let id = match parser.parse_int() {
                    Ok(v) => v,
                    Err(e) => {
                        proof {
                            assert(spec_drill(s, line_start as int, st0, selected) == Err::<
                                DrillSt,
                                ParseError,
                            >(e));
                            assert(spec_drill_file(file@) == Err::<DrillSt, ParseError>(e));
                        }
                        return Err(e);
                    },
                };
                if !parser.is_eof() && parser.peek() == 'C' {
                    let _ = parser.next();
                    let d = match parser.parse_float() {
                        Ok(v) => v,
                        Err(e) => {
                            proof {
                                assert(spec_drill(s, line_start as int, st0, selected) == Err::<
                                    DrillSt,
                                    ParseError,
                                >(e));
                                assert(spec_drill_file(file@) == Err::<DrillSt, ParseError>(e));
                            }
                            return Err(e);
                        },
                    };
                    if !holes.contains_key(&id) {
                        tools.push(id);
                    }
                    holes.insert(id, DrillOperations::new(d));
                    proof {
                        assert(holes_view(holes@) =~= st0.holes.insert(
                            id,
                            DrillOpsView { diameter: d, holes: Seq::empty() },
                        ));
                        lemma_line_end_range(s, parser.idx as int);
                    }
                } else {
                    selected = id;
                    proof {
                        lemma_line_end_range(s, parser.idx as int);
                    }
                }
            } else if op == 'X' {
                let x = match parser.parse_float() {
                    Ok(v) => v,
                    Err(e) => {
                        proof {
                            assert(spec_drill(s, line_start as int, st0, selected) == Err::<
                                DrillSt,
                                ParseError,
                            >(e));
                            assert(spec_drill_file(file@) == Err::<DrillSt, ParseError>(e));
                        }
                        return Err(e);
                    },
                };
                proof {
                    reveal_strlit("Y");
                    assert("Y"@ =~= seq!['Y']);
                }
                match parser.expect("Y") {
                    Err(e) => {
                        proof {
                            assert(spec_drill(s, line_start as int, st0, selected) == Err::<
                                DrillSt,
                                ParseError,
                            >(e));
                            assert(spec_drill_file(file@) == Err::<DrillSt, ParseError>(e));
                        }
                        return Err(e);
                    },
                    Ok(_) => {},
                }
                let y = match parser.parse_float() {
                    Ok(v) => v,
                    Err(e) => {
                        proof {
                            assert(spec_drill(s, line_start as int, st0, selected) == Err::<
                                DrillSt,
                                ParseError,
                            >(e));
                            assert(spec_drill_file(file@) == Err::<DrillSt, ParseError>(e));
                        }
                        return Err(e);
                    },
                };
                match holes.remove(&selected) {
                    None => {
                        proof {
                            assert(!st0.holes.contains_key(selected));
                            assert(spec_drill(s, line_start as int, st0, selected) == Err::<
                                DrillSt,
                                ParseError,
                            >(ParseError::NoCurrentTool { at: line_start }));
                            assert(spec_drill_file(file@) == Err::<DrillSt, ParseError>(
                            ParseError::NoCurrentTool { at: line_start }));
                        }
                        return Err(ParseError::NoCurrentTool { at: line_start });
                    },
                    Some(ops) => {
                        let mut ops = ops;
                        ops.holes.push(Point { x, y });
                        holes.insert(selected, ops);
                        proof {
                            let updated = DrillOpsView {
                                diameter: st0.holes[selected].diameter,
                                holes: st0.holes[selected].holes.push(Point { x, y }),
                            };
                            assert(holes_view(holes@) =~= st0.holes.insert(selected, updated));
                            lemma_line_end_range(s, parser.idx as int);
                        }
                    },
                }
            } else {
                proof {
                    lemma_line_end_range(s, parser.idx as int);
                }
            }
            parser.next_line();
        }
        Ok(DrillFile { holes, tools })
    }
}

} // verus!
