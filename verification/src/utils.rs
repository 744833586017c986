pub mod keypair;
