# jcdc

The core of a decompiler for Java class files, verified with Verus.

A method goes through three steps, all in `src/`:

- **Blocks.** `block` splits bytecode into a control flow graph; `builder` follows the
  instructions of a block on a symbolic operand stack (`sim`, `invoke`, `indy`, `arrays`,
  `values`); `flow` carries stacks from block to block, folding value diamonds
  (`diamonds`) and making variables where predecessors disagree.
- **Structure.** The structurer and the converter of `jdc-core` turn blocks into
  statements. They are called from `app/`.
- **Passes.** `method` runs the passes that make the statements readable: catch
  variables, synchronized blocks, assertions, resources, `finally`, booleans, types,
  casts, declarations, labels and names, one module each.

`jvmctx`, `ctors` and `nested` answer the questions that the printer asks about classes
and lambda bodies.

Every tree has a mathematical model (`Expr` has `ExprV`, `Stmt` has `StmtV`, and so on),
and every function states what it returns or leaves behind as a spec function on models.
Proof functions whose names start with `law_` state what holds of the library as a whole.

`app/` holds the calls into `jdc-core` that need its own trees, the conversion between
those and the library's, and the numbers that the methods of one class share. What is
known of class files and of the class hierarchy beyond the library comes in through the
trait `Hierarchy`.
