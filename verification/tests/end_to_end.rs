//! End-to-end checks: compile a source program, then execute the emitted
//! AArch64 subset with a tiny interpreter and observe the value the
//! entry function returns.

use std::collections::HashMap;

const STACK_TOP: u64 = 0x8000_0000;
const GLOBAL_BASE: u64 = 0x1000_0000;
const RETURN_SENTINEL: i64 = -1;

struct Machine {
    regs: [i64; 31],
    sp: u64,
    mem: HashMap<u64, u8>,
    flags: (i64, i64),
}

impl Machine {
    fn new() -> Self {
        Machine {
            regs: [0; 31],
            sp: STACK_TOP,
            mem: HashMap::new(),
            flags: (0, 0),
        }
    }

    fn store(&mut self, addr: u64, value: i64, bytes: u64) {
        for i in 0..bytes {
            self.mem
                .insert(addr + i, ((value as u64) >> (8 * i)) as u8);
        }
    }

    fn load(&self, addr: u64, bytes: u64) -> u64 {
        let mut v: u64 = 0;
        for i in 0..bytes {
            let b = *self.mem.get(&(addr + i)).unwrap_or(&0) as u64;
            v |= b << (8 * i);
        }
        v
    }
}

fn reg_index(name: &str) -> usize {
    name[1..].parse::<usize>().expect("register index")
}

/// Runs the assembly text from the label `_main`; returns the final x0.
fn execute(assembly: &str) -> i64 {
    let lines: Vec<String> = assembly
        .lines()
        .map(|l| l.trim().to_string())
        .filter(|l| !l.is_empty())
        .collect();

    // Pass 1: label positions and global-variable storage.
    let mut labels: HashMap<String, usize> = HashMap::new();
    let mut globals: HashMap<String, u64> = HashMap::new();
    let mut next_global = GLOBAL_BASE;
    for (i, line) in lines.iter().enumerate() {
        if let Some(label) = line.strip_suffix(':') {
            labels.insert(label.to_string(), i);
        } else if let Some(rest) = line.strip_prefix(".comm ") {
            let (name, size) = rest.split_once(',').expect("comm shape");
            let size: u64 = size.trim().parse().expect("comm size");
            globals.insert(name.trim().to_string(), next_global);
            next_global += (size + 15) / 16 * 16 + 16;
        }
    }

    let mut m = Machine::new();
    m.regs[30] = RETURN_SENTINEL;
    let mut pc: usize = *labels.get("_main").expect("an entry function named main") + 1;

    let mut steps: u64 = 0;
    while pc < lines.len() {
        steps += 1;
        assert!(steps < 1_000_000, "runaway program");
        let line = &lines[pc];
        let mut next = pc + 1;
        if line.ends_with(':') || line.starts_with('.') || line.starts_with(".comm") {
            pc = next;
            continue;
        }
        let words: Vec<String> = line
            .replace(',', " ")
            .split_whitespace()
            .map(|w| w.to_string())
            .collect();
        match words[0].as_str() {
            ".globl" | ".p2align" => {}
            "mov" => {
                let value = match words[2].as_str() {
                    "sp" => m.sp as i64,
                    s if s.starts_with('#') => s[1..].parse::<i64>().expect("imm"),
                    s => m.regs[reg_index(s)],
                };
                match words[1].as_str() {
                    "sp" => m.sp = value as u64,
                    d => m.regs[reg_index(d)] = value,
                }
            }
            "add" | "sub" | "mul" | "sdiv" => {
                if words[1] == "sp" {
                    // sub sp, sp, #n
                    let n: i64 = words[3][1..].parse().expect("imm");
                    match words[0].as_str() {
                        "sub" => m.sp = m.sp.wrapping_sub(n as u64),
                        _ => m.sp = m.sp.wrapping_add(n as u64),
                    }
                } else {
                    let a = if words[2] == "sp" {
                        m.sp as i64
                    } else {
                        m.regs[reg_index(&words[2])]
                    };
                    let b = if words[3].starts_with('#') {
                        words[3][1..].parse::<i64>().expect("imm")
                    } else {
                        m.regs[reg_index(&words[3])]
                    };
                    let r = match words[0].as_str() {
                        "add" => a.wrapping_add(b),
                        "sub" => a.wrapping_sub(b),
                        "mul" => a.wrapping_mul(b),
                        _ => a.wrapping_div(b),
                    };
                    m.regs[reg_index(&words[1])] = r;
                }
            }
            "str" | "stur" => {
                // str x2, [sp, #-16]!  |  str w1, [x0]  |  stur w0, [x29, #-20]
                let (value, bytes) = if words[1].starts_with('w') {
                    (m.regs[reg_index(&words[1])], 4)
                } else {
                    (m.regs[reg_index(&words[1])], 8)
                };
                if line.ends_with("!") {
                    // pre-indexed push on sp
                    let off: i64 = words[3]
                        .trim_start_matches('#')
                        .trim_end_matches("]!")
                        .parse()
                        .expect("pre-index offset");
                    m.sp = m.sp.wrapping_add(off as u64);
                    m.store(m.sp, value, bytes);
                } else {
                    let base_word = words[2].trim_start_matches('[').trim_end_matches(']');
                    let base = if base_word == "sp" {
                        m.sp
                    } else {
                        m.regs[reg_index(base_word)] as u64
                    };
                    let off: i64 = if words.len() > 3 {
                        words[3]
                            .trim_start_matches('#')
                            .trim_end_matches(']')
                            .parse()
                            .expect("offset")
                    } else {
                        0
                    };
                    m.store(base.wrapping_add(off as u64), value, bytes);
                }
            }
            "ldr" | "ldrsw" => {
                let dst = reg_index(&words[1]);
                if line.contains("],") {
                    // post-indexed pop from sp: ldr x0, [sp], #16
                    let v = m.load(m.sp, 8);
                    m.regs[dst] = v as i64;
                    let off: i64 = words[3].trim_start_matches('#').parse().expect("post off");
                    m.sp = m.sp.wrapping_add(off as u64);
                } else {
                    let base_word = words[2].trim_start_matches('[').trim_end_matches(']');
                    let base = if base_word == "sp" {
                        m.sp
                    } else {
                        m.regs[reg_index(base_word)] as u64
                    };
                    if words[0] == "ldrsw" {
                        let v = m.load(base, 4) as u32;
                        m.regs[dst] = v as i32 as i64;
                    } else {
                        m.regs[dst] = m.load(base, 8) as i64;
                    }
                }
            }
            "stp" => {
                // stp x29, x30, [sp, #-16]!
                m.sp = m.sp.wrapping_sub(16);
                let a = m.regs[reg_index(&words[1])];
                let b = m.regs[reg_index(&words[2])];
                m.store(m.sp, a, 8);
                m.store(m.sp + 8, b, 8);
            }
            "ldp" => {
                // ldp x29, x30, [sp], #16
                m.regs[reg_index(&words[1])] = m.load(m.sp, 8) as i64;
                m.regs[reg_index(&words[2])] = m.load(m.sp + 8, 8) as i64;
                m.sp = m.sp.wrapping_add(16);
            }
            "cmp" => {
                let a = m.regs[reg_index(&words[1])];
                let b = if words[2].starts_with('#') {
                    words[2][1..].parse::<i64>().expect("imm")
                } else {
                    m.regs[reg_index(&words[2])]
                };
                m.flags = (a, b);
            }
            "cset" => {
                let (a, b) = m.flags;
                let v = match words[2].as_str() {
                    "EQ" => a == b,
                    "NE" => a != b,
                    "LT" => a < b,
                    "LE" => a <= b,
                    cc => panic!("condition {cc}"),
                };
                m.regs[reg_index(&words[1])] = if v { 1 } else { 0 };
            }
            "b" => {
                next = labels[&words[1]] + 1;
            }
            "b.eq" => {
                if m.flags.0 == m.flags.1 {
                    next = labels[&words[1]] + 1;
                }
            }
            "bl" => {
                m.regs[30] = (pc + 1) as i64;
                next = labels[&words[1]] + 1;
            }
            "ret" => {
                if m.regs[30] == RETURN_SENTINEL {
                    return m.regs[0];
                }
                next = m.regs[30] as usize;
            }
            "adrp" => {
                let name = words[2].trim_end_matches("@GOTPAGE");
                m.regs[reg_index(&words[1])] = globals[name] as i64;
            }
            op => panic!("unhandled instruction {op} in {line}"),
        }
        pc = next;
    }
    panic!("fell off the end of the program");
}

fn run(source: &str) -> i64 {
    let assembly = rcc::compile(source).expect("compilation succeeds");
    execute(&assembly)
}

#[test]
fn arithmetic_expression_returns_21() {
    assert_eq!(run("int main() { return 5+20-4; }"), 21);
}

#[test]
fn local_variable_assignment_returns_3() {
    assert_eq!(run("int main() { int x; x = 3; return x; }"), 3);
}

#[test]
fn array_elements_sum_to_3() {
    assert_eq!(
        run("int main() { int a[3]; a[0]=1; a[1]=2; return a[0]+a[1]; }"),
        3
    );
}

#[test]
fn two_function_call_returns_5() {
    assert_eq!(
        run("int add(int a, int b) { return a+b; } int main() { return add(2, 3); }"),
        5
    );
}

#[test]
fn six_argument_call_uses_all_argument_registers() {
    assert_eq!(
        run("int f(int a, int b, int c, int d, int e, int g) { return a + 10*g + b - e; } \
             int main() { return f(1, 2, 3, 4, 5, 6); }"),
        58
    );
}

#[test]
fn while_loop_counts_to_3() {
    assert_eq!(run("int main() { int i; i=0; while(i<3) i=i+1; return i; }"), 3);
}

#[test]
fn nested_branches_in_for_loop_take_distinct_targets() {
    let source = "int main() { int s; int i; s=0; \
                  for (i=0; i<4; i=i+1) { \
                    if (i==2) { s = s + 10; } else { s = s + 1; } \
                    if (i==3) { s = s + 100; } \
                  } \
                  return s; }";
    // Iterations add 1, 1, 10, then 1 and 100.
    assert_eq!(run(source), 113);
    // Every emitted label is defined exactly once, so sibling constructs
    // cannot jump into each other.
    let assembly = rcc::compile(source).unwrap();
    let mut seen = std::collections::HashSet::new();
    for line in assembly.lines() {
        if let Some(label) = line.trim().strip_suffix(':') {
            assert!(seen.insert(label.to_string()), "label {label} defined twice");
        }
    }
}

#[test]
fn for_loop_without_clauses_runs_its_body() {
    assert_eq!(run("int main() { for (;;) return 42; return 0; }"), 42);
}

#[test]
fn pointers_read_through_addresses() {
    assert_eq!(
        run("int main() { int x; int *p; x = 7; p = &x; return *p; }"),
        7
    );
}

#[test]
fn pointer_arithmetic_steps_in_elements() {
    assert_eq!(
        run("int main() { int a[2]; *a = 1; *(a+1) = 5; return *a + *(a+1); }"),
        6
    );
}

#[test]
fn global_variables_hold_values_across_functions() {
    assert_eq!(
        run("int g; int set() { g = 5; return 0; } int main() { set(); return g+1; }"),
        6
    );
}

#[test]
fn unary_minus_and_division_evaluate() {
    assert_eq!(run("int main() { return -3+10; }"), 7);
    assert_eq!(run("int main() { return 7/2; }"), 3);
}

#[test]
fn comparisons_produce_zero_or_one() {
    assert_eq!(
        run("int main() { return (1<2) + (2<1) + (3==3) + (4<=3); }"),
        2
    );
}

#[test]
fn sizeof_evaluates_to_the_operand_type_size() {
    assert_eq!(run("int main() { return sizeof(1); }"), 4);
    assert_eq!(run("int main() { int *p; return sizeof(p); }"), 8);
}

#[test]
fn large_literals_are_spelled_in_full() {
    assert_eq!(run("int main() { return 1234567; }"), 1234567);
}

#[test]
fn failed_compilation_produces_no_assembly() {
    // An undeclared identifier aborts compilation before code generation.
    assert!(rcc::compile("int main() { return nope; }").is_err());
    assert!(rcc::compile("int main() { return 1 @ 2; }").is_err());
}
