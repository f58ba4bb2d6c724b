use std::collections::HashMap;

use sofa::ast::{Ast, Block, Expr, FnDef, Global, UnOpKind};
use sofa::codegen::{GenError, SofaGenerater};
use sofa::lexer::{tokenize, TokenKind};
use sofa::parser::{number_value, ParseError, SofaParser};
use sofa::ty::Type;
use sofa::{compile, CompileError};

/// Runs assembly text as the target machine would, starting with a call of
/// `main`, and returns the value of `rax` when `main` returns.
fn run(text: &str) -> i64 {
    let lines: Vec<&str> = text.lines().collect();
    let mut labels: HashMap<String, usize> = HashMap::new();
    for (i, l) in lines.iter().enumerate() {
        if !l.starts_with(' ') && l.ends_with(':') {
            labels.insert(l.trim_end_matches(':').to_string(), i);
        }
    }
    let mut regs: HashMap<String, i64> = HashMap::new();
    let mut mem: HashMap<i64, i64> = HashMap::new();
    let mut flags = (0i64, 0i64);
    let top: i64 = 1 << 40;
    regs.insert("rsp".to_string(), top);
    regs.insert("rbp".to_string(), 0);
    let sentinel: i64 = -1;
    let rsp = regs["rsp"] - 8;
    regs.insert("rsp".to_string(), rsp);
    mem.insert(rsp, sentinel);
    let mut pc = labels["main"];
    for _ in 0..1_000_000 {
        let line = lines[pc].trim();
        pc += 1;
        if line.is_empty() || line.ends_with(':') || line.starts_with('.') {
            continue;
        }
        let (op, rest) = line.split_once(' ').unwrap_or((line, ""));
        let args: Vec<&str> = rest.split(", ").filter(|s| !s.is_empty()).collect();
        let val = |regs: &HashMap<String, i64>, a: &str| -> i64 {
            match a.parse::<i64>() {
                Ok(v) => v,
                Err(_) => regs[a],
            }
        };
        match op {
            "push" => {
                let v = val(&regs, args[0]);
                let sp = regs["rsp"] - 8;
                regs.insert("rsp".to_string(), sp);
                mem.insert(sp, v);
            }
            "pop" => {
                let sp = regs["rsp"];
                let v = mem[&sp];
                regs.insert("rsp".to_string(), sp + 8);
                regs.insert(args[0].to_string(), v);
            }
            "mov" => {
                if args[0].starts_with('[') {
                    let addr = regs[args[0].trim_matches(|c| c == '[' || c == ']')];
                    mem.insert(addr, val(&regs, args[1]));
                } else if args[1].starts_with('[') {
                    let addr = regs[args[1].trim_matches(|c| c == '[' || c == ']')];
                    regs.insert(args[0].to_string(), *mem.get(&addr).unwrap_or(&0));
                } else {
                    let v = val(&regs, args[1]);
                    regs.insert(args[0].to_string(), v);
                }
            }
            "add" | "sub" | "imul" => {
                let a = regs[args[0]];
                let b = val(&regs, args[1]);
                let r = match op {
                    "add" => a.wrapping_add(b),
                    "sub" => a.wrapping_sub(b),
                    _ => a.wrapping_mul(b),
                };
                regs.insert(args[0].to_string(), r);
            }
            "cqo" => {}
            "idiv" => {
                let a = regs["rax"];
                let b = regs[args[0]];
                regs.insert("rax".to_string(), a / b);
                regs.insert("rdx".to_string(), a % b);
            }
            "neg" => {
                let a = regs[args[0]];
                regs.insert(args[0].to_string(), -a);
            }
            "cmp" => flags = (regs[args[0]], val(&regs, args[1])),
            "sete" | "setne" | "setl" | "setle" => {
                let b = match op {
                    "sete" => flags.0 == flags.1,
                    "setne" => flags.0 != flags.1,
                    "setl" => flags.0 < flags.1,
                    _ => flags.0 <= flags.1,
                };
                regs.insert(args[0].to_string(), b as i64);
            }
            "movzb" => {
                let v = regs[args[1]] & 0xff;
                regs.insert(args[0].to_string(), v);
            }
            "jmp" => pc = labels[args[0]],
            "je" => {
                if flags.0 == flags.1 {
                    pc = labels[args[0]];
                }
            }
            "call" => {
                let sp = regs["rsp"] - 8;
                regs.insert("rsp".to_string(), sp);
                mem.insert(sp, pc as i64);
                pc = labels[args[0]];
            }
            "leave" => {
                let bp = regs["rbp"];
                let v = mem[&bp];
                regs.insert("rsp".to_string(), bp + 8);
                regs.insert("rbp".to_string(), v);
            }
            "ret" => {
                let sp = regs["rsp"];
                let v = mem[&sp];
                regs.insert("rsp".to_string(), sp + 8);
                if v == sentinel {
                    return regs["rax"];
                }
                pc = v as usize;
            }
            other => panic!("unknown instruction {}", other),
        }
    }
    panic!("program did not return");
}

fn run_source(src: &str) -> i64 {
    run(&compile(src).unwrap())
}

fn fresh_text(ast: &Ast) -> Result<String, GenError> {
    let mut g = SofaGenerater::new();
    g.gen(ast)
}

fn main_with(exprs: Vec<Expr>) -> Ast {
    Ast {
        node: Global {
            definitions: vec![FnDef { name: "main".to_string(), args: vec![], body: Block { exprs } }],
        },
    }
}

#[test]
fn test_example() {
    let s = "// sums and products\n\
             fn square(x: i64) { return x * x; }\n\
             fn main() {\n\
                 let total: i64 = 0;\n\
                 let i = 1;\n\
                 loop {\n\
                     if i > 4 { return total; }\n\
                     total = total + square(i);\n\
                     i = i + 1;\n\
                 }\n\
             }\n";
    let tokens = tokenize(s).unwrap();
    let parser = SofaParser::new(&tokens);
    let ast = parser.parse().unwrap();
    let mut generater = SofaGenerater::new();
    let text = generater.gen(&ast).unwrap();
    assert!(text.starts_with(".intel_syntax noprefix\n.global main\n\n"));
    assert_eq!(run(&text), 30);
}

#[test]
fn literal_token_round_trips() {
    for n in [0u64, 7, 42, 1234567890, i64::MAX as u64] {
        let src = n.to_string();
        let tokens = tokenize(&src).unwrap();
        assert_eq!(tokens.len(), 1);
        assert_eq!(tokens[0].kind, TokenKind::Number);
        assert_eq!(tokens[0].pos, (0, src.len()));
        let payload = tokens[0].value.clone().unwrap();
        assert_eq!(payload, src);
        assert_eq!(number_value(&payload), Some(n as i64));
    }
    let tokens = tokenize("007").unwrap();
    assert_eq!(number_value(tokens[0].value.as_ref().unwrap()), Some(7));
}

#[test]
fn number_too_large_for_i64() {
    assert_eq!(number_value(&"9223372036854775808".to_string()), None);
    assert_eq!(number_value(&"12a".to_string()), None);
}

#[test]
fn lexer_kinds_keywords_and_comments() {
    let tokens = tokenize("fn let if else loop return true false foo _x1 // note\n+-*/%&|^<>()[]{}=!?:;,.").unwrap();
    let kinds: Vec<TokenKind> = tokens.iter().map(|t| t.kind).collect();
    assert_eq!(
        kinds,
        vec![
            TokenKind::Fn,
            TokenKind::Let,
            TokenKind::If,
            TokenKind::Else,
            TokenKind::Loop,
            TokenKind::Return,
            TokenKind::True,
            TokenKind::False,
            TokenKind::Ident,
            TokenKind::Ident,
            TokenKind::Plus,
            TokenKind::Minus,
            TokenKind::Star,
            TokenKind::Slash,
            TokenKind::Percent,
            TokenKind::And,
            TokenKind::Or,
            TokenKind::Caret,
            TokenKind::Lt,
            TokenKind::Gt,
            TokenKind::LParen,
            TokenKind::RParen,
            TokenKind::LBlanket,
            TokenKind::RBlanket,
            TokenKind::LBrace,
            TokenKind::RBrace,
            TokenKind::Eq,
            TokenKind::Bang,
            TokenKind::Question,
            TokenKind::Colon,
            TokenKind::Semi,
            TokenKind::Comma,
            TokenKind::Dot,
        ]
    );
    assert_eq!(tokens[8].value.as_deref(), Some("foo"));
    assert_eq!(tokens[9].pos, (42, 45));
    assert!(tokenize("  \n\t").unwrap().is_empty());
    assert!(tokenize("// only a comment").unwrap().is_empty());
}

#[test]
fn lexer_rejects_unknown_character() {
    let e = tokenize("let a = 1 # 2;").unwrap_err();
    assert_eq!(e.ch, '#');
    assert_eq!(e.pos, 10);
    assert!(matches!(compile("fn main() { return 1 @ 2; }"), Err(CompileError::Lex(_))));
}

#[test]
fn arithmetic_matches_truncating_evaluation() {
    assert_eq!(run_source("fn main() { return 1 + 2 * 3; }"), 7);
    assert_eq!(run_source("fn main() { return (1 + 2) * 3; }"), 9);
    assert_eq!(run_source("fn main() { return 10 - 4 - 3; }"), 3);
    assert_eq!(run_source("fn main() { return 100 / 10 / 5; }"), 2);
    assert_eq!(run_source("fn main() { return -7 / 2; }"), -7 / 2);
    assert_eq!(run_source("fn main() { return (7 - 2) * 3 / 2 + -7 / 2; }"), (7 - 2) * 3 / 2 + -7 / 2);
}

#[test]
fn comparisons_leave_zero_or_one() {
    assert_eq!(run_source("fn main() { return 3 > 2; }"), 1);
    assert_eq!(run_source("fn main() { return 2 > 3; }"), 0);
    assert_eq!(run_source("fn main() { return (2 <= 2) + (3 >= 4) * 10 + (1 == 1) * 100 + (1 != 1) * 1000; }"), 101);
    assert_eq!(run_source("fn main() { return 2 < 3; }"), 1);
}

#[test]
fn greater_is_swapped_less() {
    let gt = compile("fn main() { return 1 > 2; }").unwrap();
    let lt = compile("fn main() { return 2 < 1; }").unwrap();
    let tail = "    cmp rax, rdi\n    setl al\n    movzb rax, al\n    push rax\n";
    assert!(gt.contains(&format!("    push 1\n    push 2\n    pop rax\n    pop rdi\n{}", tail)));
    assert!(lt.contains(&format!("    push 2\n    push 1\n    pop rdi\n    pop rax\n{}", tail)));
}

#[test]
fn loop_ends_through_return() {
    let text = compile("fn main() { loop { return 7; } }").unwrap();
    assert!(text.contains(".L0_loop:\n    push 7\n    pop rax\n    leave\n    ret\n    jmp .L0_loop\n"));
    assert_eq!(run(&text), 7);
}

#[test]
fn false_if_skips_its_body() {
    let text = compile("fn main() { let x = 1; if 0 { x = 5; } return x; }").unwrap();
    assert!(text.contains("    cmp rax, 0\n    je .L0_end\n"));
    assert_eq!(run(&text), 1);
    assert_eq!(run_source("fn main() { let x = 1; if 1 { x = 5; } return x; }"), 5);
    assert_eq!(run_source("fn main() { if 0 { return 1; } else { return 3; } }"), 3);
    assert_eq!(run_source("fn main() { if 0 { return 1; } else if 1 { return 4; } return 9; }"), 4);
}

#[test]
fn locals_get_increasing_offsets() {
    let text = compile("fn main() { let a = 1; let b = 2; a = 3; return a * 10 + b; }").unwrap();
    let offsets: Vec<&str> = text.lines().filter(|l| l.starts_with("    sub rax, ")).collect();
    assert_eq!(offsets, vec!["    sub rax, 8", "    sub rax, 16", "    sub rax, 8", "    sub rax, 8", "    sub rax, 16"]);
    assert_eq!(run(&text), 32);
}

#[test]
fn two_locals_sum() {
    assert_eq!(run_source("fn main() { let x = 2; let y = 3; return x + y; }"), 5);
}

#[test]
fn false_condition_returns_two() {
    assert_eq!(run_source("fn main() { if 0 { return 1; } return 2; }"), 2);
}

#[test]
fn call_passes_arguments_in_registers() {
    let text = compile("fn add(a, b) { return a + b; } fn main() { return add(2, 3); }").unwrap();
    assert!(text.contains("    push 2\n    push 3\n    pop rsi\n    pop rdi\n    call add\n"));
    assert!(text.contains("add:\n    push rbp\n    mov rbp, rsp\n    sub rsp, 16\n    mov rax, rbp\n    sub rax, 8\n    mov [rax], rdi\n    sub rax, 8\n    mov [rax], rsi\n"));
    assert_eq!(run(&text), 5);
}

#[test]
fn pointers_store_and_load() {
    assert_eq!(run_source("fn main() { let x = 1; let p = &x; *p = 9; return x + *p; }"), 18);
}

#[test]
fn exact_listing_of_small_program() {
    let text = compile("fn main() { return 42; }").unwrap();
    assert_eq!(
        text,
        ".intel_syntax noprefix\n.global main\n\nmain:\n    push rbp\n    mov rbp, rsp\n    sub rsp, 2048\n    mov rax, rbp\n    push 42\n    pop rax\n    leave\n    ret\n    leave\n    ret\n\n"
    );
}

#[test]
fn negative_literal_is_rendered_with_sign() {
    let ast = main_with(vec![Expr::Return { expr: Box::new(Expr::Number { value: -5 }) }]);
    let text = fresh_text(&ast).unwrap();
    assert!(text.contains("    push -5\n"));
    assert_eq!(run(&text), -5);
}

#[test]
fn generator_errors() {
    assert_eq!(compile("fn main() { return &1; }"), Err(CompileError::Gen(GenError::InvalidLvalue)));
    assert_eq!(
        compile("fn f() { return 0; } fn main() { return f(1, 2, 3, 4, 5, 6, 7); }"),
        Err(CompileError::Gen(GenError::TooManyArgs))
    );
    assert_eq!(
        compile("fn f(a, b, c, d, e, g, h) { return 0; } fn main() { return 0; }"),
        Err(CompileError::Gen(GenError::TooManyArgs))
    );
    let bad = main_with(vec![Expr::Assign {
        lhs: Box::new(Expr::Number { value: 1 }),
        rhs: Box::new(Expr::Number { value: 2 }),
    }]);
    assert_eq!(fresh_text(&bad), Err(GenError::InvalidLvalue));
    let deref_ok = main_with(vec![Expr::UnOp {
        kind: UnOpKind::Ref,
        expr: Box::new(Expr::Local { name: "q".to_string() }),
    }]);
    assert!(fresh_text(&deref_ok).is_ok());
}

#[test]
fn parse_errors() {
    assert_eq!(compile("fn main() { 1 = 2; }"), Err(CompileError::Parse(ParseError { token: 6 })));
    assert_eq!(compile("fn main() { return 1 }"), Err(CompileError::Parse(ParseError { token: 7 })));
    assert_eq!(compile("fn main( { }"), Err(CompileError::Parse(ParseError { token: 3 })));
    assert!(matches!(compile("let x = 1;"), Err(CompileError::Parse(ParseError { token: 0 }))));
}

#[test]
fn labels_are_unique_across_functions() {
    let text = compile("fn f() { loop { return 1; } } fn main() { loop { return f(); } }").unwrap();
    assert!(text.contains(".L0_loop:"));
    assert!(text.contains(".L1_loop:"));
    assert_eq!(run(&text), 1);
}

#[test]
fn type_sizes() {
    assert_eq!(Type::I64.size(), 8);
    assert_eq!(Type::Bool.size(), 8);
    assert_eq!(Type::Ptr { to: Box::new(Type::Bool) }.size(), 8);
    assert_eq!(Type::Array { element: Box::new(Type::I64), len: 3 }.size(), 24);
    let nested = Type::Array { element: Box::new(Type::Array { element: Box::new(Type::I64), len: 2 }), len: 5 };
    assert_eq!(nested.size(), 80);
    assert_eq!(Type::Void.size(), 0);
    assert_eq!(Type::Never.size(), 0);
    assert_eq!(Type::Unknown.size(), 0);
    assert_eq!(Type::Fn { args: vec![Type::I64], ret: Box::new(Type::I64) }.size(), 0);
}

#[test]
fn declared_types_are_parsed() {
    assert_eq!(run_source("fn main() { let a: [i64; 4] = 3; let p: *bool = 2; return a + p; }"), 5);
}

#[test]
fn assignment_gives_a_new_local_a_slot() {
    let text = compile("fn main() { y = 4; return y + 1; }").unwrap();
    assert!(text.contains("    mov rax, rbp\n    sub rax, 8\n    push rax\n    push 4\n"));
    assert_eq!(run(&text), 5);
}

#[test]
fn nested_call_arguments_survive() {
    let text = compile("fn add(a, b) { return a + b; } fn main() { return add(1, add(2, 3)); }").unwrap();
    assert_eq!(run(&text), 6);
}

#[test]
fn each_function_starts_with_empty_locals() {
    let text = compile("fn h(w) { let x = 1; return w + x; } fn f(x, y, z) { return 0; } fn main() { return h(5); }")
        .unwrap();
    let h_part: Vec<&str> = text.lines().skip_while(|l| *l != "h:").take_while(|l| *l != "f:").collect();
    let offsets: Vec<&str> = h_part.iter().copied().filter(|l| l.starts_with("    sub rax, ")).collect();
    assert_eq!(offsets, vec!["    sub rax, 8", "    sub rax, 16", "    sub rax, 8", "    sub rax, 16"]);
    let text2 = compile("fn f(x, y, z) { return 0; } fn h(w) { let x = 1; return w + x; } fn main() { return h(5); }")
        .unwrap();
    let h2: Vec<&str> = text2.lines().skip_while(|l| *l != "h:").take_while(|l| *l != "main:").collect();
    let offsets2: Vec<&str> = h2.iter().copied().filter(|l| l.starts_with("    sub rax, ")).collect();
    assert_eq!(offsets2, offsets);
}
