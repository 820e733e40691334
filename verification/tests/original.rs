use fup::fup::parse_input_str;
use fup::grammar::GrammarTree;

fn a(s: &'static str) -> GrammarTree<'static> {
    GrammarTree::Atom(s)
}

fn l(v: Vec<GrammarTree<'static>>) -> GrammarTree<'static> {
    GrammarTree::List(v)
}

fn check(input: &str, expected: Vec<GrammarTree<'static>>) {
    let parsed = match parse_input_str(input) {
        Ok(code) => code,
        Err(err) => panic!("{:?}", err),
    };
    let expected = GrammarTree::List(expected);
    if parsed != expected {
        panic!(
            "\n>> INPUT:\n{}\n\n>> EXPECTED:\n{}\n\n>> PARSED:\n{}\n\n>> TREE:\n{:?}",
            input,
            expected.scheme_text(),
            parsed.scheme_text(),
            parsed
        );
    }
}

#[test]
fn scheme() {
    check(
        r#"
		( ; Compute fibonacci number
			define (fib n)
			(cond
				((= n 0) 0)
				((= n 1) 1)
				(#t (
					+
					(fib (- n 1))
					(fib (- n 2))
				))
			)
		)

		(fib 10)
	"#,
        vec![
            l(vec![
                a("define"),
                l(vec![a("fib"), a("n")]),
                l(vec![
                    a("cond"),
                    l(vec![l(vec![a("="), a("n"), a("0")]), a("0")]),
                    l(vec![l(vec![a("="), a("n"), a("1")]), a("1")]),
                    l(vec![
                        a("#t"),
                        l(vec![
                            a("+"),
                            l(vec![a("fib"), l(vec![a("-"), a("n"), a("1")])]),
                            l(vec![a("fib"), l(vec![a("-"), a("n"), a("2")])]),
                        ]),
                    ]),
                ]),
            ]),
            l(vec![a("fib"), a("10")]),
        ],
    );
}

#[test]
fn scheme_let() {
    check(
        r#"
		(let ((x 1)) x)
	"#,
        vec![l(vec![a("let"), l(vec![l(vec![a("x"), a("1")])]), a("x")])],
    );
}

#[test]
fn scheme_let_2() {
    check(
        r#"
		(let ((x 1) (y 1)) (+ x y))
	"#,
        vec![l(vec![
            a("let"),
            l(vec![l(vec![a("x"), a("1")]), l(vec![a("y"), a("1")])]),
            l(vec![a("+"), a("x"), a("y")]),
        ])],
    );
}

#[test]
fn define() {
    check(
        r#"
		define FOO(x) {
			(+ x 1)
		}

		(display (FOO 1))

		(define (FOO x) (+ x 1))
	"#,
        vec![
            l(vec![a("define"), l(vec![a("FOO"), a("x")]), l(vec![a("+"), a("x"), a("1")])]),
            l(vec![a("display"), l(vec![a("FOO"), a("1")])]),
            l(vec![a("define"), l(vec![a("FOO"), a("x")]), l(vec![a("+"), a("x"), a("1")])]),
        ],
    );
}

#[test]
fn define_with_space() {
    check(
        r#"
		define FOO (x) {
			(+ x 1)
		}
	"#,
        vec![l(vec![a("define"), l(vec![a("FOO"), a("x")]), l(vec![a("+"), a("x"), a("1")])])],
    );
}

#[test]
fn let_plain() {
    check(
        r#"
		let x = 1 {
			(display x)
		}
	"#,
        vec![l(vec![a("let"), l(vec![l(vec![a("x"), a("1")])]), l(vec![a("display"), a("x")])])],
    );
}

#[test]
fn letrec() {
    check(
        r#"
		let* x = foo(1,), y = x {
			y
		}
	"#,
        vec![l(vec![
            a("let*"),
            l(vec![l(vec![a("x"), l(vec![a("foo"), a("1")])]), l(vec![a("y"), a("x")])]),
            a("y"),
        ])],
    );
}

#[test]
fn let_unscoped() {
    check(
        r#"
		let x = 1
		(display x)
	"#,
        vec![l(vec![a("let"), l(vec![l(vec![a("x"), a("1")])]), l(vec![a("display"), a("x")])])],
    );
}

#[test]
fn call() {
    check(
        r#"
		func(arg1, arg2)

		func(arg,)

		func (arg,)

		func(,)
	"#,
        vec![
            l(vec![a("func"), a("arg1"), a("arg2")]),
            l(vec![a("func"), a("arg")]),
            l(vec![a("func"), a("arg")]),
            l(vec![a("func")]),
        ],
    );
}

#[test]
fn call_expression() {
    check(
        r#"
		{ cond { #f => foo, #t => bar } }(1, 1 + 1)
		(lambda (x) x)(1,)
	"#,
        vec![
            l(vec![
                l(vec![a("cond"), l(vec![a("#f"), a("foo")]), l(vec![a("#t"), a("bar")])]),
                a("1"),
                l(vec![a("+"), a("1"), a("1")]),
            ]),
            l(vec![l(vec![a("lambda"), l(vec![a("x")]), a("x")]), a("1")]),
        ],
    );
}

#[test]
fn index_exact() {
    check(
        r#"
		a[1]
	"#,
        vec![l(vec![a("car"), l(vec![a("cdr"), a("a")])])],
    );
}

#[test]
fn index_right_open() {
    check(
        r#"
		b[2..]
	"#,
        vec![l(vec![a("cdr"), l(vec![a("cdr"), a("b")])])],
    );
}

#[test]
fn index_left_open() {
    check(
        r#"
		c[..2]
	"#,
        vec![l(vec![
            a("list"),
            l(vec![a("car"), a("c")]),
            l(vec![a("car"), l(vec![a("cdr"), a("c")])]),
        ])],
    );
}

#[test]
fn index_full_empty() {
    check(
        r#"
		d[1..1]
	"#,
        vec![l(vec![])],
    );
}

#[test]
fn index_full() {
    check(
        r#"
		e[1..3]
	"#,
        vec![l(vec![
            a("list"),
            l(vec![a("car"), l(vec![a("cdr"), a("e")])]),
            l(vec![a("car"), l(vec![a("cdr"), l(vec![a("cdr"), a("e")])])]),
        ])],
    );
}

#[test]
fn index_expression() {
    check(
        r#"
		{a[0]}[0]
		
		(list 1 2)[1]

		{ foo(,) }[0]
	"#,
        vec![
            l(vec![a("car"), l(vec![a("car"), a("a")])]),
            l(vec![a("car"), l(vec![a("cdr"), l(vec![a("list"), a("1"), a("2")])])]),
            l(vec![a("car"), l(vec![a("foo")])]),
        ],
    );
}

#[test]
fn cond() {
    check(
        r#"
		cond {
			(= 1 2) => (display 1),
			(= 1 3) => (display 2),
			else => (display 3)
		}

		(cond ((= 1 2) (display 1)) ((= 1 3) (display 2)) (else (display 3)))
	"#,
        vec![
            l(vec![
                a("cond"),
                l(vec![l(vec![a("="), a("1"), a("2")]), l(vec![a("display"), a("1")])]),
                l(vec![l(vec![a("="), a("1"), a("3")]), l(vec![a("display"), a("2")])]),
                l(vec![a("else"), l(vec![a("display"), a("3")])]),
            ]),
            l(vec![
                a("cond"),
                l(vec![l(vec![a("="), a("1"), a("2")]), l(vec![a("display"), a("1")])]),
                l(vec![l(vec![a("="), a("1"), a("3")]), l(vec![a("display"), a("2")])]),
                l(vec![a("else"), l(vec![a("display"), a("3")])]),
            ]),
        ],
    );
}

#[test]
fn infix() {
    check(
        r#"
		6 * 7
		1 + 2 - 3 / 2
		a : b : c
		a : (cons b c)
		{1 + 2} * 3
		(define
			(foo x y)
			{x + y}
		)
	"#,
        vec![
            l(vec![a("*"), a("6"), a("7")]),
            l(vec![a("-"), l(vec![a("+"), a("1"), a("2")]), l(vec![a("/"), a("3"), a("2")])]),
            l(vec![a("cons"), a("a"), l(vec![a("cons"), a("b"), a("c")])]),
            l(vec![a("cons"), a("a"), l(vec![a("cons"), a("b"), a("c")])]),
            l(vec![a("*"), l(vec![a("+"), a("1"), a("2")]), a("3")]),
            l(vec![a("define"), l(vec![a("foo"), a("x"), a("y")]), l(vec![a("+"), a("x"), a("y")])]),
        ],
    );
}

#[test]
fn mixed() {
    check(
        r#"
		(+ 1 a(b,))
		(list a[0] a[1])
		(+ 1 { 6 * 7 })
		(foo cond { a => b, c => d })
	"#,
        vec![
            l(vec![a("+"), a("1"), l(vec![a("a"), a("b")])]),
            l(vec![
                a("list"),
                l(vec![a("car"), a("a")]),
                l(vec![a("car"), l(vec![a("cdr"), a("a")])]),
            ]),
            l(vec![a("+"), a("1"), l(vec![a("*"), a("6"), a("7")])]),
            l(vec![a("foo"), l(vec![a("cond"), l(vec![a("a"), a("b")]), l(vec![a("c"), a("d")])])]),
        ],
    );
}

#[test]
fn lists() {
    check(
        r#"
		[1,2,3]
		[1,2,3,]
		[]
		( foo [1,2] )
		( foo [1,2,] )
		( foo [1,] )    ; trailing coma disambiguates list literal
		( foo [1] )     ; indexing into foo has precedence
		( foo [] )      ; with no argument list wins again
		{[1,2,3]}[1]    ; indexing possible when wrapped in {}
	"#,
        vec![
            l(vec![a("list"), a("1"), a("2"), a("3")]),
            l(vec![a("list"), a("1"), a("2"), a("3")]),
            l(vec![a("list")]),
            l(vec![a("foo"), l(vec![a("list"), a("1"), a("2")])]),
            l(vec![a("foo"), l(vec![a("list"), a("1"), a("2")])]),
            l(vec![a("foo"), l(vec![a("list"), a("1")])]),
            l(vec![l(vec![a("car"), l(vec![a("cdr"), a("foo")])])]),
            l(vec![a("foo"), l(vec![a("list")])]),
            l(vec![a("car"), l(vec![a("cdr"), l(vec![a("list"), a("1"), a("2"), a("3")])])]),
        ],
    );
}
