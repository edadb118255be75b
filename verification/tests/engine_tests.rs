use deepzero_rust::arrays::DenseArray;
use deepzero_rust::engine::Graph;
use deepzero_rust::engine::Variable;
use deepzero_rust::function::square;
use deepzero_rust::function::Square;
use deepzero_rust::laws::fanin_accumulation_law;
use deepzero_rust::laws::reseed_idempotence_law;
use deepzero_rust::laws::square_leaf_gradient_law;
use deepzero_rust::tensor::Tensor;

fn leaf(g: &mut Graph, v: Vec<i64>) -> Variable {
    Variable::from_tensor(g, Tensor::from_vec(v))
}

#[test]
fn test() {}

#[test]
fn square_forward_and_gradient() {
    let mut g = Graph::new();
    let x = leaf(&mut g, vec![3, -4]);
    let y = square(&mut g, x).unwrap();
    assert_eq!(y.data_elems(&g), vec![9, 16]);
    assert_eq!(x.generation(&g), 0);
    assert_eq!(y.generation(&g), 1);
    assert!(y.backward(&mut g));
    assert_eq!(x.grad_elems(&g), Some(vec![6, -8]));
    assert_eq!(y.grad_elems(&g), Some(vec![1, 1]));
}

#[test]
fn square_struct_call() {
    let mut g = Graph::new();
    let x = leaf(&mut g, vec![5]);
    let y = Square.call(&mut g, x).unwrap();
    assert_eq!(y.data_elems(&g), vec![25]);
}

#[test]
fn composed_squares_gradient() {
    let mut g = Graph::new();
    let x = leaf(&mut g, vec![2]);
    let y1 = square(&mut g, x).unwrap();
    let y = square(&mut g, y1).unwrap();
    assert_eq!(y.data_elems(&g), vec![16]);
    assert_eq!(x.generation(&g), 0);
    assert_eq!(y1.generation(&g), 1);
    assert_eq!(y.generation(&g), 2);
    assert!(y.backward(&mut g));
    // d(x^4)/dx = 4 x^3
    assert_eq!(x.grad_elems(&g), Some(vec![32]));
    assert_eq!(y1.grad_elems(&g), Some(vec![8]));
}

#[test]
fn fanout_two_edges_accumulates() {
    let mut g = Graph::new();
    let a = leaf(&mut g, vec![3]);
    let p = square(&mut g, a).unwrap();
    let q = square(&mut g, a).unwrap();
    let y = deepzero_rust::engine::add(&mut g, p, q).unwrap();
    assert_eq!(y.data_elems(&g), vec![18]);
    assert!(y.backward(&mut g));
    // both paths contribute 2 * a, summed
    assert_eq!(a.grad_elems(&g), Some(vec![12]));
}

#[test]
fn generation_bookkeeping() {
    let mut g = Graph::new();
    let x = leaf(&mut g, vec![1, 2]);
    let y = square(&mut g, x).unwrap();
    let z = deepzero_rust::engine::add(&mut g, y, y).unwrap();
    let w = deepzero_rust::engine::add(&mut g, x, y).unwrap();
    assert_eq!(x.generation(&g), 0);
    assert_eq!(y.generation(&g), 1);
    assert_eq!(z.generation(&g), 2);
    assert_eq!(w.generation(&g), 2);
}

#[test]
fn leaf_backward_seeds_ones() {
    let mut g = Graph::new();
    let x = leaf(&mut g, vec![5, 6, 7]);
    assert!(x.backward(&mut g));
    assert_eq!(x.len(&g), 3);
    assert_eq!(x.grad_elems(&g), Some(vec![1, 1, 1]));
    assert_eq!(x.data_elems(&g), vec![5, 6, 7]);
}

#[test]
fn seeded_gradient_retained() {
    let mut g = Graph::new();
    let x = leaf(&mut g, vec![9]);
    assert!(x.backward(&mut g));
    assert!(x.backward(&mut g));
    assert_eq!(x.grad_elems(&g), Some(vec![1]));
}

#[test]
fn mul_gradients_and_unclear_accumulation() {
    let mut g = Graph::new();
    let a = leaf(&mut g, vec![5]);
    let b = leaf(&mut g, vec![7]);
    let y = deepzero_rust::engine::mul(&mut g, a, b).unwrap();
    assert_eq!(y.data_elems(&g), vec![35]);
    assert!(y.backward(&mut g));
    assert_eq!(a.grad_elems(&g), Some(vec![7]));
    assert_eq!(b.grad_elems(&g), Some(vec![5]));
    // a second backward without clearing accumulates a second contribution
    assert!(y.backward(&mut g));
    assert_eq!(a.grad_elems(&g), Some(vec![14]));
    assert_eq!(b.grad_elems(&g), Some(vec![10]));
}

#[test]
fn cleargrad_then_backward_reproduces() {
    let mut g = Graph::new();
    let a = leaf(&mut g, vec![5]);
    let b = leaf(&mut g, vec![7]);
    let y = deepzero_rust::engine::mul(&mut g, a, b).unwrap();
    assert!(y.backward(&mut g));
    let first_a = a.grad_elems(&g).unwrap();
    let first_b = b.grad_elems(&g).unwrap();
    a.cleargrad(&mut g);
    b.cleargrad(&mut g);
    y.cleargrad(&mut g);
    assert_eq!(a.grad_elems(&g), None);
    assert!(y.backward(&mut g));
    assert_eq!(a.grad_elems(&g), Some(first_a));
    assert_eq!(b.grad_elems(&g), Some(first_b));
}

#[test]
fn sub_and_neg_gradients() {
    let mut g = Graph::new();
    let a = leaf(&mut g, vec![10]);
    let b = leaf(&mut g, vec![4]);
    let y = deepzero_rust::engine::sub(&mut g, a, b).unwrap();
    assert_eq!(y.data_elems(&g), vec![6]);
    assert!(y.backward(&mut g));
    assert_eq!(a.grad_elems(&g), Some(vec![1]));
    assert_eq!(b.grad_elems(&g), Some(vec![-1]));

    let mut g2 = Graph::new();
    let c = leaf(&mut g2, vec![4]);
    let z = deepzero_rust::engine::neg(&mut g2, c).unwrap();
    assert_eq!(z.data_elems(&g2), vec![-4]);
    assert!(z.backward(&mut g2));
    assert_eq!(c.grad_elems(&g2), Some(vec![-1]));
}

#[test]
fn add_gradients() {
    let mut g = Graph::new();
    let a = leaf(&mut g, vec![1, 2]);
    let b = leaf(&mut g, vec![30, 40]);
    let y = deepzero_rust::engine::add(&mut g, a, b).unwrap();
    assert_eq!(y.data_elems(&g), vec![31, 42]);
    assert!(y.backward(&mut g));
    assert_eq!(a.grad_elems(&g), Some(vec![1, 1]));
    assert_eq!(b.grad_elems(&g), Some(vec![1, 1]));
}

#[test]
fn forward_overflow_returns_none() {
    let mut g = Graph::new();
    let x = leaf(&mut g, vec![3_037_000_500]);
    assert!(square(&mut g, x).is_none());
    // the graph is untouched and still usable
    let w = leaf(&mut g, vec![2]);
    let y = square(&mut g, w).unwrap();
    assert_eq!(y.data_elems(&g), vec![4]);
}

#[test]
fn backward_overflow_returns_false() {
    let mut g = Graph::new();
    let a = leaf(&mut g, vec![1_i64 << 62]);
    let b = leaf(&mut g, vec![1]);
    let y = deepzero_rust::engine::mul(&mut g, a, b).unwrap();
    assert!(y.backward(&mut g));
    assert_eq!(b.grad_elems(&g), Some(vec![1_i64 << 62]));
    // accumulating a second 2^62 contribution overflows i64
    assert!(!y.backward(&mut g));
}

#[test]
fn law_square_concrete() {
    let r = square_leaf_gradient_law(Tensor::from_vec(vec![3, 5]));
    let (g, x, y) = r.unwrap();
    assert_eq!(y.data_elems(&g), vec![9, 25]);
    assert_eq!(x.grad_elems(&g), Some(vec![6, 10]));
    assert_eq!(y.grad_elems(&g), Some(vec![1, 1]));
}

#[test]
fn law_square_overflow_none() {
    assert!(square_leaf_gradient_law(Tensor::from_vec(vec![i64::MAX])).is_none());
}

#[test]
fn law_fanin_concrete() {
    let r = fanin_accumulation_law(Tensor::from_vec(vec![4]));
    let (g, a, y) = r.unwrap();
    assert_eq!(y.data_elems(&g), vec![16]);
    assert_eq!(a.grad_elems(&g), Some(vec![8]));
}

#[test]
fn law_reseed_concrete() {
    let r = reseed_idempotence_law(Tensor::from_vec(vec![3]));
    let (first, second) = r.unwrap();
    assert_eq!(first, vec![6]);
    assert_eq!(second, vec![6]);
}

#[test]
fn dense_array_roundtrip() {
    let arr = DenseArray::from_parts(&vec![2, 3], vec![1, 2, 3, 4, 5, 6]);
    assert_eq!(arr.shape_vec(), vec![2, 3]);
    assert_eq!(arr.elems_vec(), vec![1, 2, 3, 4, 5, 6]);
    let mut g = Graph::new();
    let x = Variable::new(&mut g, arr);
    assert_eq!(x.len(&g), 6);
    assert_eq!(x.data_elems(&g), vec![1, 2, 3, 4, 5, 6]);
    let back = x.data(&g);
    assert_eq!(back.shape_vec(), vec![2, 3]);
    assert_eq!(back.elems_vec(), vec![1, 2, 3, 4, 5, 6]);
}

#[test]
fn diamond_graph_gradient() {
    // y = square(z) * square(z) with z = square(x): y = x^8
    let mut g = Graph::new();
    let x = leaf(&mut g, vec![2]);
    let z = square(&mut g, x).unwrap();
    let a = square(&mut g, z).unwrap();
    let b = square(&mut g, z).unwrap();
    let y = deepzero_rust::engine::mul(&mut g, a, b).unwrap();
    assert_eq!(y.data_elems(&g), vec![256]);
    assert!(y.backward(&mut g));
    // dy/dz = 4 z^3 = 256, dz/dx = 2 x = 4
    assert_eq!(z.grad_elems(&g), Some(vec![256]));
    assert_eq!(x.grad_elems(&g), Some(vec![1024]));
}

#[test]
fn mixed_graph_gradients() {
    // w = a * b - square(a)
    let mut g = Graph::new();
    let a = leaf(&mut g, vec![3]);
    let b = leaf(&mut g, vec![5]);
    let p = deepzero_rust::engine::mul(&mut g, a, b).unwrap();
    let q = square(&mut g, a).unwrap();
    let w = deepzero_rust::engine::sub(&mut g, p, q).unwrap();
    assert_eq!(w.data_elems(&g), vec![6]);
    assert!(w.backward(&mut g));
    // dw/da = b - 2 a = -1, dw/db = a = 3
    assert_eq!(a.grad_elems(&g), Some(vec![-1]));
    assert_eq!(b.grad_elems(&g), Some(vec![3]));
}

#[test]
fn set_data_in_place() {
    let mut g = Graph::new();
    let x = leaf(&mut g, vec![1, 2, 3]);
    let y = square(&mut g, x).unwrap();
    assert_eq!(y.data_elems(&g), vec![1, 4, 9]);
    x.set_data(&mut g, Tensor::from_vec(vec![10, 20, 30]));
    assert_eq!(x.data_elems(&g), vec![10, 20, 30]);
    // backward reads the data as it stands now
    assert!(y.backward(&mut g));
    assert_eq!(x.grad_elems(&g), Some(vec![20, 40, 60]));
}

#[test]
fn zero_axis_array() {
    let arr = DenseArray::from_parts(&vec![0, 5], vec![]);
    assert_eq!(arr.shape_vec(), vec![0, 5]);
    assert_eq!(arr.elems_vec(), Vec::<i64>::new());
    let mut g = Graph::new();
    let x = Variable::new(&mut g, arr);
    assert_eq!(x.len(&g), 0);
    assert!(x.backward(&mut g));
    assert_eq!(x.grad_elems(&g), Some(Vec::<i64>::new()));
}

#[test]
fn multidim_ones_seed() {
    let arr = DenseArray::from_parts(&vec![2, 2], vec![1, 2, 3, 4]);
    let mut g = Graph::new();
    let x = Variable::new(&mut g, arr);
    assert!(x.backward(&mut g));
    let grad = x.grad(&g).unwrap();
    assert_eq!(grad.shape_vec(), vec![2, 2]);
    assert_eq!(grad.elems_vec(), vec![1, 1, 1, 1]);
}
