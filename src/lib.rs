pub mod branch_mutations;
pub mod divergence;
pub mod letter;
pub mod member_order;
pub mod mutation;
pub mod placement;
pub mod seed_match;
pub mod text;
pub mod tree;
pub mod tree_attach;
pub mod tree_builder;
