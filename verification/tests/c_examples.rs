use sea::sea::Sea;

fn run(file: &str, source: &str) -> Vec<String> {
    let sea = Sea::new(source, "c").expect("the C source parses");
    let diagnostics = sea.analyze(file, &Vec::new());
    diagnostics.iter().map(|d| d.message.clone()).collect()
}

const DOUBLE_FREE: &str = "#include <stdlib.h>

int main() {
  int *p = malloc(sizeof(int));
  free(p);
  free(p);
  return 0;
}
";

const USE_BEFORE_INIT: &str = "int main() {
  int *p;
  *p = 5;
  return 0;
}
";

const USE_AFTER_FREE: &str = "#include <stdlib.h>
int main() {
  int *p = malloc(sizeof(int));
  free(p);
  *p = 10;
  return 0;
}
";

const VALID: &str = "#include <stdlib.h>
int main() {
  int *p = malloc(sizeof(int));
  *p = 10;
  free(p);
  return 0;
}
";

const REINIT: &str = "#include <stdlib.h>
int main() {
  int *p = malloc(sizeof(int));
  free(p);
  p = malloc(sizeof(int));
  *p = 3;
  free(p);
  return 0;
}
";

const NULL_DEREFERENCE: &str = "#include <stdlib.h>
int main() {
  int *p = NULL;
  *p = 5;
  return 0;
}
";

const STACK_RETURN: &str = "int *get() {
  int x = 5;
  return &x;
}
";

const VALID_RETURN: &str = "#include <stdlib.h>
int *make() {
  int *p = malloc(sizeof(int));
  *p = 1;
  return p;
}
";

const PTR_OUTLIVE: &str = "int main() {
  int *p;
  {
    int x = 5;
    p = &x;
  }
  return 0;
}
";

const VALID_SCOPE: &str = "int main() {
  int x = 5;
  {
    int *p = &x;
    *p = 6;
  }
  return 0;
}
";

const PASS_FREED: &str = "#include <stdlib.h>
void use(int *q);
int main() {
  int *p = malloc(sizeof(int));
  free(p);
  use(p);
  return 0;
}
";

const MIXED: &str = "#include <stdlib.h>
int main() {
  int *p = malloc(sizeof(int));
  int *q = malloc(sizeof(int));
  int *r = malloc(sizeof(int));
  free(p);
  free(p);
  free(q);
  *q = 1;
  *r = 2;
  free(r);
  return 0;
}
";

const CONDITIONAL_FREE: &str = "#include <stdlib.h>
int main(int argc) {
  int *p = malloc(sizeof(int));
  if (argc > 1) {
    free(p);
  }
  *p = 1;
  return 0;
}
";

const CONDITIONAL_FREE_BOTH: &str = "#include <stdlib.h>
int main(int argc) {
  int *p = malloc(sizeof(int));
  if (argc > 1) {
    free(p);
  } else {
    free(p);
  }
  return 0;
}
";

const NO_ELSE: &str = "#include <stdlib.h>
int main(int argc) {
  int *p = malloc(sizeof(int));
  if (argc > 1) {
    free(p);
  }
  free(p);
  return 0;
}
";

const NESTED_IF: &str = "#include <stdlib.h>
int main(int a, int b) {
  int *p = malloc(sizeof(int));
  if (a) {
    if (b) {
      free(p);
    }
  }
  *p = 1;
  free(p);
  return 0;
}
";

const FREE_IN_ELSE: &str = "#include <stdlib.h>
int main(int a) {
  int *p = malloc(sizeof(int));
  if (a) {
    *p = 1;
  } else {
    free(p);
  }
  *p = 2;
  return 0;
}
";

const VALID_IF_ELSE: &str = "#include <stdlib.h>
int main(int a) {
  int *p = malloc(sizeof(int));
  if (a) {
    *p = 1;
  } else {
    *p = 2;
  }
  free(p);
  return 0;
}
";

const WHILE_FREE: &str = "#include <stdlib.h>
int main(int n) {
  int *p = malloc(sizeof(int));
  while (n > 0) {
    free(p);
    n--;
  }
  return 0;
}
";

const WHILE_VALID: &str = "#include <stdlib.h>
int main(int n) {
  int *p = malloc(sizeof(int));
  while (n > 0) {
    *p = n;
    n--;
  }
  free(p);
  return 0;
}
";

const FOR_VALID: &str = "#include <stdlib.h>
int main() {
  int *p = malloc(10 * sizeof(int));
  for (int i = 0; i < 10; i++) {
    p[i] = i;
  }
  free(p);
  return 0;
}
";

const FOR_FREE: &str = "#include <stdlib.h>
int main() {
  int *p = malloc(sizeof(int));
  for (int i = 0; i < 3; i++) {
    *p = i;
    if (i == 2) {
      free(p);
    }
  }
  return 0;
}
";

const FOR_DOUBLE_FREE: &str = "#include <stdlib.h>
int main() {
  int *p = malloc(sizeof(int));
  for (int i = 0; i < 2; i++) {
    free(p);
  }
  return 0;
}
";

const SWITCH_VALID: &str = "#include <stdlib.h>
int main(int x) {
  int *p = malloc(sizeof(int));
  switch (x) {
    case 1:
      *p = 1;
      break;
    case 2:
      *p = 2;
      break;
    default:
      *p = 0;
      break;
  }
  free(p);
  return 0;
}
";

const SWITCH_FREE: &str = "#include <stdlib.h>
int main(int x) {
  int *p = malloc(sizeof(int));
  switch (x) {
    case 1:
      free(p);
      break;
    default:
      break;
  }
  *p = 1;
  return 0;
}
";

const SWITCH_FALLTHROUGH: &str = "#include <stdlib.h>
int main(int x) {
  int *p = malloc(sizeof(int));
  switch (x) {
    case 1:
      free(p);
    case 2:
      *p = 2;
      break;
    default:
      break;
  }
  return 0;
}
";

const SWITCH_ALL_CASES: &str = "#include <stdlib.h>
int main(int x) {
  int *p = malloc(sizeof(int));
  switch (x) {
    case 1:
      free(p);
      break;
    case 2:
      free(p);
      break;
    default:
      free(p);
      break;
  }
  return 0;
}
";

const DO_WHILE_VALID: &str = "#include <stdlib.h>
int main(int n) {
  int *p = malloc(sizeof(int));
  do {
    *p = n;
    n--;
  } while (n > 0);
  free(p);
  return 0;
}
";

const DO_WHILE_FREE: &str = "#include <stdlib.h>
int main(int n) {
  int *p = malloc(sizeof(int));
  do {
    *p = n;
    if (n == 1) {
      free(p);
    }
    n--;
  } while (n > 0);
  return 0;
}
";

const DO_WHILE_DOUBLE_FREE: &str = "#include <stdlib.h>
int main(int n) {
  int *p = malloc(sizeof(int));
  do {
    free(p);
    n--;
  } while (n > 0);
  return 0;
}
";

const LEAK: &str = "#include <stdlib.h>
#include <stdio.h>

int main() {
  int *p = malloc(sizeof(int));
  *p = 42;
  printf(\"%d\\n\", *p);
  return 0;
}
";

const ARRAY_ALIAS_FREE: &str = "#include <stdlib.h>
int main() {
  char *args[4];
  for (int i = 0; i < 4; i++) {
    char *arg = malloc(16);
    args[i] = arg;
  }
  for (int i = 0; i < 4; i++) {
    free(args[i]);
  }
  return 0;
}
";

const PARAM_DEREF: &str = "int sum(int *p, int **pp, int n) {
  int total = *p;
  int *q = pp[0];
  total += *q;
  for (int i = 0; i < n; i++) {
    total += p[i];
  }
  return total;
}
";

const CAST_INIT: &str = "#include <stdlib.h>
typedef struct { int n; } task_t;
void *worker(void *args) {
  task_t *targ = (task_t *)args;
  targ->n = 1;
  return NULL;
}
";

const MULTI_FUNCTION_USE_BEFORE_INIT: &str = "#include <string.h>
int length(const char *s) {
  return strlen(s);
}

int main() {
  int *p;
  *p = 1;
  return 0;
}
";

#[test]
fn test_double_free() {
    let messages = run("examples/double_free.c", DOUBLE_FREE);
    assert!(messages.iter().any(|m| m.contains("double free of 'p'")));
}

#[test]
fn test_use_before_init() {
    let messages = run("examples/use_before_init.c", USE_BEFORE_INIT);
    assert!(
        messages.iter().any(|m| m.contains("use of uninitialized pointer 'p'")),
        "expected use of uninitialized pointer but got: {:?}",
        messages
    );
}

#[test]
fn test_use_after_free() {
    let messages = run("examples/use_after_free.c", USE_AFTER_FREE);
    assert!(messages.iter().any(|m| m.contains("use after free of 'p'")));
}

#[test]
fn test_valid_no_issues() {
    let messages = run("examples/valid.c", VALID);
    assert!(messages.is_empty(), "expected no issues but got: {:?}", messages);
}

#[test]
fn test_reinit_no_issues() {
    let messages = run("examples/reinit.c", REINIT);
    assert!(messages.is_empty(), "expected no issues but got: {:?}", messages);
}

#[test]
fn test_null_deref() {
    let messages = run("examples/null_dereference.c", NULL_DEREFERENCE);
    assert!(messages.iter().any(|m| m.contains("null pointer dereference")));
}

#[test]
fn test_stack_return() {
    let messages = run("examples/stack_return.c", STACK_RETURN);
    assert!(messages.iter().any(|m| m.contains("returning address of stack variable")));
}

#[test]
fn test_valid_return_no_issues() {
    let messages = run("examples/valid_return.c", VALID_RETURN);
    assert!(messages.is_empty(), "expected no issues but got: {:?}", messages);
}

#[test]
fn test_ptr_outlive() {
    let messages = run("examples/ptr_outlive.c", PTR_OUTLIVE);
    assert!(messages.iter().any(|m| m.contains("will outlive")));
}

#[test]
fn test_valid_scope_no_issues() {
    let messages = run("examples/valid_scope.c", VALID_SCOPE);
    assert!(messages.is_empty(), "expected no issues but got: {:?}", messages);
}

#[test]
fn test_pass_freed() {
    let messages = run("examples/pass_freed.c", PASS_FREED);
    assert!(messages.iter().any(|m| m.contains("passing freed pointer")));
}

#[test]
fn test_mixed() {
    let messages = run("examples/mixed.c", MIXED);
    assert!(
        messages.iter().any(|m| m.contains("double free of 'p'")),
        "expected double free of p but got: {:?}",
        messages
    );
    assert!(
        messages.iter().any(|m| m.contains("use after free of 'q'")),
        "expected use after free of q but got: {:?}",
        messages
    );
    assert!(
        !messages.iter().any(|m| m.contains("'r'")),
        "unexpected error involving r: {:?}",
        messages
    );
}

#[test]
fn test_conditional_free() {
    let messages = run("examples/conditional_free.c", CONDITIONAL_FREE);
    assert!(
        messages.iter().any(|m| m.contains("possible use after free")),
        "expected possible use after free but got: {:?}",
        messages
    );
}

#[test]
fn test_conditional_free_both() {
    let messages = run("examples/conditional_free_both.c", CONDITIONAL_FREE_BOTH);
    assert!(messages.is_empty(), "expected no issues but got: {:?}", messages);
}

#[test]
fn test_no_else() {
    let messages = run("examples/no_else.c", NO_ELSE);
    assert!(
        messages.iter().any(|m| m.contains("possible double free") || m.contains("double free")),
        "expected double free warning but got: {:?}",
        messages
    );
}

#[test]
fn test_nested_if() {
    let messages = run("examples/nested_if.c", NESTED_IF);
    assert!(
        messages.iter().any(|m| m.contains("possible use after free")),
        "expected possible use after free but got: {:?}",
        messages
    );
}

#[test]
fn test_free_in_else() {
    let messages = run("examples/free_in_else.c", FREE_IN_ELSE);
    assert!(
        messages.iter().any(|m| m.contains("possible use after free")),
        "expected possible use after free but got: {:?}",
        messages
    );
}

#[test]
fn test_valid_if_else() {
    let messages = run("examples/valid_if_else.c", VALID_IF_ELSE);
    assert!(messages.is_empty(), "expected no issues but got: {:?}", messages);
}

#[test]
fn test_while_free() {
    let messages = run("examples/while_free.c", WHILE_FREE);
    assert!(
        messages
            .iter()
            .any(|m| m.contains("possible use after free") || m.contains("possible double free")),
        "expected possible use after free or double free but got: {:?}",
        messages
    );
}

#[test]
fn test_while_valid() {
    let messages = run("examples/while_valid.c", WHILE_VALID);
    assert!(messages.is_empty(), "expected no issues but got: {:?}", messages);
}

#[test]
fn test_for_valid() {
    let messages = run("examples/for_valid.c", FOR_VALID);
    assert!(messages.is_empty(), "expected no issues but got: {:?}", messages);
}

#[test]
fn test_for_free() {
    let messages = run("examples/for_free.c", FOR_FREE);
    assert!(
        messages.iter().any(|m| m.contains("possible use after free")),
        "expected possible use after free but got: {:?}",
        messages
    );
}

#[test]
fn test_for_double_free() {
    let messages = run("examples/for_double_free.c", FOR_DOUBLE_FREE);
    assert!(
        messages.iter().any(|m| m.contains("possible double free")),
        "expected possible double free but got: {:?}",
        messages
    );
}

#[test]
fn test_switch_valid() {
    let messages = run("examples/switch_valid.c", SWITCH_VALID);
    assert!(messages.is_empty(), "expected no issues but got: {:?}", messages);
}

#[test]
fn test_switch_free() {
    let messages = run("examples/switch_free.c", SWITCH_FREE);
    assert!(
        messages.iter().any(|m| m.contains("possible use after free")),
        "expected possible use after free but got: {:?}",
        messages
    );
}

#[test]
fn test_switch_fallthrough() {
    let messages = run("examples/switch_fallthrough.c", SWITCH_FALLTHROUGH);
    assert!(
        messages.iter().any(|m| m.contains("possible use after free")),
        "expected possible use after free but got: {:?}",
        messages
    );
}

#[test]
fn test_switch_all_cases() {
    let messages = run("examples/switch_all_cases.c", SWITCH_ALL_CASES);
    assert!(messages.is_empty(), "expected no issues but got: {:?}", messages);
}

#[test]
fn test_do_while_valid() {
    let messages = run("examples/do_while_valid.c", DO_WHILE_VALID);
    assert!(messages.is_empty(), "expected no issues but got: {:?}", messages);
}

#[test]
fn test_do_while_free() {
    let messages = run("examples/do_while_free.c", DO_WHILE_FREE);
    assert!(
        messages.iter().any(|m| m.contains("possible use after free")),
        "expected possible use after free but got: {:?}",
        messages
    );
}

#[test]
fn test_do_while_double_free() {
    let messages = run("examples/do_while_double_free.c", DO_WHILE_DOUBLE_FREE);
    assert!(
        messages.iter().any(|m| m.contains("possible double free")),
        "expected possible double free but got: {:?}",
        messages
    );
}

#[test]
fn test_memory_leak() {
    let messages = run("examples/leak.c", LEAK);
    assert!(
        messages.iter().any(|m| m.contains("memory leak")),
        "expected memory leak but got: {:?}",
        messages
    );
}

#[test]
fn test_array_alias_free_no_issues() {
    let messages = run("examples/array_alias_free.c", ARRAY_ALIAS_FREE);
    assert!(messages.is_empty(), "expected no issues but got: {:?}", messages);
}

#[test]
fn test_param_deref_no_issues() {
    let messages = run("examples/param_deref.c", PARAM_DEREF);
    assert!(
        messages.is_empty(),
        "function parameters are initialized by the caller and shouldn't be \
         flagged as uninitialized, regardless of pointer depth or whether they're \
         dereferenced via `*p` or `p[i]`, but got: {:?}",
        messages
    );
}

#[test]
fn test_cast_init_no_issues() {
    let messages = run("examples/cast_init_no_issues.c", CAST_INIT);
    assert!(
        !messages.iter().any(|m| m.contains("'targ'")),
        "a pointer declared and initialized in one statement via a cast \
         (`T *targ = (T *)args;`) must not be treated as uninitialized, \
         but got: {:?}",
        messages
    );
}

#[test]
fn test_multi_function_use_before_init() {
    let messages = run(
        "examples/multi_function_use_before_init.c",
        MULTI_FUNCTION_USE_BEFORE_INIT,
    );
    assert!(
        messages.iter().any(|m| m.contains("use of uninitialized pointer 'p'")),
        "expected a genuine uninitialized-local diagnostic for 'p' but got: {:?}",
        messages
    );
    assert!(
        !messages.iter().any(|m| m.contains("'s'")),
        "parameter 's' in an earlier function must not leak a diagnostic into \
         or out of the next function's analysis, but got: {:?}",
        messages
    );
}

/// The example output of the README, line and column included.
#[test]
fn readme_example_output() {
    let cases = [
        ("examples/double_free.c", DOUBLE_FREE, "examples/double_free.c:6:7: error: double free of 'p'"),
        (
            "examples/null_dereference.c",
            "#include <stdlib.h>\nint main() {\n  int *p = NULL;\n  *p = 5;\n  return 0;\n}\n",
            "examples/null_dereference.c:4:3: error: null pointer dereference of 'p'",
        ),
        (
            "examples/conditional_free.c",
            "#include <stdlib.h>\nint main(int argc) {\n  int *p = malloc(sizeof(int));\n  if (argc > 1) {\n    free(p);\n  }\n  *p = 1;\n  return 0;\n}\n",
            "examples/conditional_free.c:7:3: warning: possible use after free of 'p'",
        ),
        ("examples/leak.c", LEAK, "examples/leak.c:9:1: error: memory leak of pointer 'p'"),
    ];
    for (file, source, expected) in cases {
        let sea = Sea::new(source, "c").unwrap();
        let lines: Vec<String> = sea.analyze(file, &Vec::new()).iter().map(|d| d.render()).collect();
        assert!(lines.iter().any(|l| l == expected), "expected {:?} in {:?}", expected, lines);
    }
}
