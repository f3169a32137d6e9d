pub mod bignum;
