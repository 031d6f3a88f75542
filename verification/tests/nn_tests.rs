//! The linear layer: building, loading and applying.

use luminal::executor::execute;
use luminal::graph::Graph;
use luminal::matmul::MetalMatMulCompiler;
use luminal::nn::{InitModule, Linear, LoadModule, Module, StateDict};

/// A vector and a batch through the same layer, before and after
/// compilation, match a reference computation.
#[test]
fn linear_forward_values() {
    let mut cx = Graph::new();
    let model: Linear<3, 4> = Linear::initialize(&mut cx);
    let w: Vec<i64> = vec![1, 2, 3, 4, -1, 0, 2, 1, 3, -2, 1, 0];
    cx.set_tensor(model.weight.id, w.clone());

    let a = cx.tensor(vec![luminal::expr::Expr::Num(3)]).set(vec![1, 2, 3], &mut cx);
    let batch = cx.tensor(
        vec![luminal::expr::Expr::Num(2), luminal::expr::Expr::Num(3)],
    ).set(vec![1, 2, 3, 1, 2, 3], &mut cx);

    let b = model.forward(a, &mut cx).retrieve(&mut cx);
    let batch_out = model.forward(batch, &mut cx).retrieve(&mut cx);

    // reference: out[j] = sum_i in[i] * w[i, j]
    let mut expect = vec![0i64; 4];
    let input = [1i64, 2, 3];
    for j in 0..4 {
        for i in 0..3 {
            expect[j] += input[i] * w[i * 4 + j];
        }
    }

    let before = execute(&cx).unwrap();
    assert_eq!(before.get(b.id).unwrap().as_slice(), expect.as_slice());
    let rows = before.get(batch_out.id).unwrap();
    assert_eq!(&rows[0..4], expect.as_slice());
    assert_eq!(&rows[4..8], expect.as_slice());

    let comp = MetalMatMulCompiler::default();
    let mut handles = vec![b.id, batch_out.id];
    comp.compile(&mut cx, &mut handles);
    let after = execute(&cx).unwrap();
    assert_eq!(after.get(handles[0]).unwrap().as_slice(), expect.as_slice());
    let rows2 = after.get(handles[1]).unwrap();
    assert_eq!(&rows2[0..4], expect.as_slice());
    assert_eq!(&rows2[4..8], expect.as_slice());
}

/// Loading takes the entry named `weight` out of the dictionary.
#[test]
fn linear_load_takes_weight() {
    let mut cx = Graph::new();
    let mut model: Linear<2, 2> = Linear::initialize(&mut cx);
    let mut sd = StateDict::new();
    sd.data.push(("bias".to_string(), vec![9, 9]));
    sd.data.push(("weight".to_string(), vec![1, 0, 0, 1]));
    model.load(&mut sd, &mut cx);
    assert_eq!(sd.data.len(), 1);
    assert_eq!(sd.data[0].0, "bias");
    // the identity weight was attached to the weight node
    let a = cx.tensor(vec![luminal::expr::Expr::Num(2)]).set(vec![7, -2], &mut cx);
    let out = model.forward(a, &mut cx).retrieve(&mut cx);
    let outs = execute(&cx).unwrap();
    assert_eq!(outs.get(out.id).unwrap().as_slice(), &[7, -2]);
}
