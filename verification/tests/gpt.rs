use smolgpt::error::GptError;
use smolgpt::gpt::check_dims;
use smolgpt::gpt::Dims;
use smolgpt::gpt::GptTrainer;
use smolgpt::gpt::Head;
use smolgpt::gpt::WEIGHT_SCALE;
use smolgpt::matrix::Matrix;

/// The small end-to-end configuration: 5 tokens, context 2, embedding 4,
/// query 2, one head, one layer.
fn small_dims() -> Dims {
    Dims { tokens: 5, context_size: 2, embed_dim: 4, query_dim: 2, num_heads: 1, num_layers: 1 }
}

#[test]
fn parameters_closed_form() {
    let model = GptTrainer::new_random(small_dims(), 7).unwrap().model;
    // 5*4 (embedding) + 4*4*2*1*1 (attention) + 5*4 (unembedding)
    assert_eq!(model.parameters(), 72);
}

#[test]
fn parameters_deterministic() {
    let a = GptTrainer::new_random(small_dims(), 1).unwrap().model;
    let b = GptTrainer::new_random(small_dims(), 2).unwrap().model;
    // the count depends only on the dimensions, never on the weights
    assert_eq!(a.parameters(), b.parameters());
}

#[test]
fn check_dims_accepts_and_rejects() {
    assert!(check_dims(&small_dims()));
    let mut bad = small_dims();
    bad.tokens = 0;
    assert!(!check_dims(&bad));
    let mut bad2 = small_dims();
    bad2.context_size = 0;
    assert!(!check_dims(&bad2));
}

#[test]
fn new_random_rejects_invalid_dims() {
    let mut bad = small_dims();
    bad.embed_dim = 0;
    match GptTrainer::new_random(bad, 3) {
        Err(GptError::InvalidArgument) => {},
        other => panic!("expected InvalidArgument, got {:?}", other.is_ok()),
    }
}

#[test]
fn new_random_weights_in_range() {
    let model = GptTrainer::new_random(small_dims(), 11).unwrap().model;
    let u = model.unembedding();
    for y in 0..model.dims().tokens {
        for x in 0..model.dims().embed_dim {
            let v = u.get(x, y).unwrap();
            assert!(0 <= v && v < WEIGHT_SCALE);
        }
    }
    for t in 0..model.dims().tokens {
        let e = model.embedding_vector(t).unwrap();
        assert_eq!(e.width(), 1);
        assert_eq!(e.height(), model.dims().embed_dim);
        for y in 0..e.height() {
            let v = e.get(0, y).unwrap();
            assert!(0 <= v && v < WEIGHT_SCALE);
        }
    }
}

#[test]
fn new_random_builds_all_layers_and_heads() {
    let dims = Dims { tokens: 3, context_size: 2, embed_dim: 4, query_dim: 2, num_heads: 2, num_layers: 3 };
    let model = GptTrainer::new_random(dims, 5).unwrap().model;
    for i in 0..dims.num_layers {
        let layer = model.layer(i).unwrap();
        assert_eq!(layer.heads.len(), dims.num_heads);
        for head in layer.heads.iter() {
            assert_eq!(head.key.width(), dims.query_dim);
            assert_eq!(head.key.height(), dims.embed_dim);
            assert_eq!(head.query.width(), dims.embed_dim);
            assert_eq!(head.query.height(), dims.query_dim);
            assert_eq!(head.value_u.width(), dims.query_dim);
            assert_eq!(head.value_u.height(), dims.embed_dim);
            assert_eq!(head.value_d.width(), dims.embed_dim);
            assert_eq!(head.value_d.height(), dims.query_dim);
        }
    }
    assert!(model.layer(dims.num_layers).is_err());
}

#[test]
fn embedding_vector_invalid_token() {
    let model = GptTrainer::new_random(small_dims(), 13).unwrap().model;
    match model.embedding_vector(5) {
        Err(GptError::InvalidToken) => {},
        _ => panic!("expected InvalidToken"),
    }
}

#[test]
fn logits_rejects_invalid_token() {
    let model = GptTrainer::new_random(small_dims(), 17).unwrap().model;
    // token id 5 is out of a 5-token vocabulary
    match model.next_token_logits(&vec![0, 5]) {
        Err(GptError::InvalidToken) => {},
        _ => panic!("expected InvalidToken"),
    }
    match model.next_token_logits(&vec![9, 1]) {
        Err(GptError::InvalidToken) => {},
        _ => panic!("expected InvalidToken"),
    }
}

#[test]
fn logits_rejects_wrong_context_length() {
    let model = GptTrainer::new_random(small_dims(), 19).unwrap().model;
    match model.next_token_logits(&vec![0, 1, 2]) {
        Err(GptError::InvalidArgument) => {},
        _ => panic!("expected InvalidArgument"),
    }
    match model.next_token_logits(&vec![0]) {
        Err(GptError::InvalidArgument) => {},
        _ => panic!("expected InvalidArgument"),
    }
}

#[test]
fn logits_have_vocabulary_length() {
    let model = GptTrainer::new_random(small_dims(), 23).unwrap().model;
    let l = model.next_token_logits(&vec![0, 1]).unwrap();
    assert_eq!(l.width(), 1);
    assert_eq!(l.height(), 5);
    // every logit is a sum of embed_dim products of weights in range
    let bound = (small_dims().embed_dim as i64) * WEIGHT_SCALE * WEIGHT_SCALE;
    for y in 0..5 {
        let v = l.get(0, y).unwrap();
        assert!(0 <= v && v < bound);
    }
}

#[test]
fn seeded_model_is_deterministic() {
    let a = GptTrainer::new_random(small_dims(), 42).unwrap().model;
    let b = GptTrainer::new_random(small_dims(), 42).unwrap().model;
    let la = a.next_token_logits(&vec![0, 1]).unwrap();
    let lb = b.next_token_logits(&vec![0, 1]).unwrap();
    assert_eq!(la, lb);
    // and repeated calls on one model agree with themselves
    let la2 = a.next_token_logits(&vec![0, 1]).unwrap();
    assert_eq!(la, la2);
}

#[test]
fn different_seeds_differ() {
    // not guaranteed in principle, but astronomically certain for a PRNG:
    // two different seeds should not give identical unembedding matrices
    let a = GptTrainer::new_random(small_dims(), 1).unwrap().model;
    let b = GptTrainer::new_random(small_dims(), 2).unwrap().model;
    let mut same = true;
    for y in 0..5 {
        for x in 0..4 {
            if a.unembedding().get(x, y).unwrap() != b.unembedding().get(x, y).unwrap() {
                same = false;
            }
        }
    }
    assert!(!same);
}

/// Builds a `w` by `h` matrix from row-major values.
fn grid(w: usize, h: usize, vals: &[i64]) -> Matrix {
    assert_eq!(vals.len(), w * h);
    let mut m = Matrix::new_zeroed(w, h);
    for y in 0..h {
        for x in 0..w {
            m.set(x, y, vals[y * w + x]).unwrap();
        }
    }
    m
}

#[test]
fn attention_scores_match_hand_computation() {
    let d = Dims { tokens: 2, context_size: 2, embed_dim: 2, query_dim: 1, num_heads: 1, num_layers: 1 };
    let head = Head {
        key: grid(1, 2, &[10, 20]),
        query: grid(2, 1, &[100, 200]),
        value_u: grid(1, 2, &[0, 0]),
        value_d: grid(2, 1, &[0, 0]),
    };
    let e0 = grid(1, 2, &[2, 3]);
    let e1 = grid(1, 2, &[5, 7]);
    let s = head.scores(d, &vec![e0, e1]);
    assert_eq!(s.width(), 2);
    assert_eq!(s.height(), 2);
    // key rows: e0·key = 2*10+3*20 = 80, e1·key = 5*10+7*20 = 190
    // query columns: 100*2+200*3 = 800, 100*5+200*7 = 1900
    // score(query i, key j) = key_j * query_i
    assert_eq!(s.get(0, 0).unwrap(), 80 * 800);
    assert_eq!(s.get(1, 0).unwrap(), 190 * 800);
    assert_eq!(s.get(0, 1).unwrap(), 80 * 1900);
    assert_eq!(s.get(1, 1).unwrap(), 190 * 1900);
}

#[test]
fn attention_scores_on_random_model() {
    let model = GptTrainer::new_random(small_dims(), 37).unwrap().model;
    let es = model.embed_context(&vec![2, 4]).unwrap();
    let layer = model.layer(0).unwrap();
    let s = layer.heads[0].scores(model.dims(), &es);
    assert_eq!(s.width(), 2);
    assert_eq!(s.height(), 2);
    // scores of weight-range projections are nonnegative and bounded
    let pb = (small_dims().embed_dim as i64) * WEIGHT_SCALE * WEIGHT_SCALE;
    let bound = (small_dims().query_dim as i64) * (pb + 1) * (pb + 1);
    for y in 0..2 {
        for x in 0..2 {
            let v = s.get(x, y).unwrap();
            assert!(0 <= v && v <= bound);
        }
    }
}

#[test]
fn layer_evaluate_with_zero_weights_is_residual_identity() {
    // with all attention weights zero, every head contributes nothing and
    // the layer returns exactly the stacked input embeddings
    let d = Dims { tokens: 2, context_size: 2, embed_dim: 2, query_dim: 1, num_heads: 1, num_layers: 1 };
    let layer = smolgpt::gpt::Layer {
        heads: vec![Head {
            key: grid(1, 2, &[1, 2]),
            query: grid(2, 1, &[3, 4]),
            value_u: grid(1, 2, &[1000, 1013]),
            value_d: grid(2, 1, &[1020, 1010]),
        }],
    };
    let e0 = grid(1, 2, &[900, 800]);
    let e1 = grid(1, 2, &[500, 700]);
    let w = grid(2, 2, &[0, 0, 0, 0]);
    let out = layer.evaluate(d, &vec![e0, e1], &vec![w]);
    assert_eq!(out, grid(2, 2, &[900, 800, 500, 700]));
}

#[test]
fn layer_evaluate_matches_hand_computation() {
    let d = Dims { tokens: 2, context_size: 2, embed_dim: 2, query_dim: 1, num_heads: 1, num_layers: 1 };
    let layer = smolgpt::gpt::Layer {
        heads: vec![Head {
            key: grid(1, 2, &[1, 2]),
            query: grid(2, 1, &[3, 4]),
            value_u: grid(1, 2, &[1000, 1013]),
            value_d: grid(2, 1, &[1020, 1010]),
        }],
    };
    let e0 = grid(1, 2, &[900, 800]);
    let e1 = grid(1, 2, &[500, 700]);
    // position 0 attends fully to position 0; position 1 attends half
    // to each position
    let w = grid(2, 2, &[1024, 0, 512, 512]);
    let out = layer.evaluate(d, &vec![e0, e1], &vec![w]);
    // value rows: 900*1000+800*1013 = 1710400, 500*1000+700*1013 = 1209100
    // weighted sums: 1024*1710400 = 1751449600,
    //                512*1710400+512*1209100 = 1494784000
    // down-projections divided by 1024^3, added onto the embeddings
    assert_eq!(out, grid(2, 2, &[2563, 2447, 1919, 2106]));
}

#[test]
fn embed_context_looks_up_embeddings() {
    let model = GptTrainer::new_random(small_dims(), 29).unwrap().model;
    let es = model.embed_context(&vec![3, 1]).unwrap();
    assert_eq!(es.len(), 2);
    assert_eq!(&es[0], model.embedding_vector(3).unwrap());
    assert_eq!(&es[1], model.embedding_vector(1).unwrap());
}
